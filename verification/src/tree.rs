//! A finite directory tree as a mathematical value, and what the producers
//! do on every such tree: the single worker's order, and that both
//! producers send each file of the tree exactly once and nothing else.

use crate::entry::{dirs_of, files_of, Entry};
use std::path::PathBuf;
use vstd::multiset::Multiset;
use vstd::prelude::*;

verus! {

/// An entry of a directory together with all that lies below it. A
/// directory's content is the sequence of its nodes, in the order in which
/// the platform lists them.
pub enum Node {
    /// Anything that is not a directory.
    File(PathBuf),
    /// A directory and its content.
    Dir(PathBuf, Seq<Node>),
}

impl Node {
    /// The node's path.
    pub open spec fn path(self) -> PathBuf {
        match self {
            Node::File(p) => p,
            Node::Dir(p, _) => p,
        }
    }

    /// The node as its parent's listing shows it.
    pub open spec fn entry(self) -> Entry {
        Entry { path: self.path(), is_dir: self is Dir }
    }

    /// The content of a directory; a file has none.
    pub open spec fn content(self) -> Seq<Node> {
        match self {
            Node::File(_) => Seq::empty(),
            Node::Dir(_, c) => c,
        }
    }
}

/// What the platform lists for a directory with the content `c`.
pub open spec fn listing_of(c: Seq<Node>) -> Seq<Entry> {
    c.map_values(|n: Node| n.entry())
}

/// The paths of `nodes`, in order.
pub open spec fn paths_of(nodes: Seq<Node>) -> Seq<PathBuf> {
    nodes.map_values(|n: Node| n.path())
}

/// The directories among `c`, in order.
pub open spec fn subdirs(c: Seq<Node>) -> Seq<Node>
    decreases c.len(),
{
    if c.len() == 0 {
        Seq::empty()
    } else if c.last() is Dir {
        subdirs(c.drop_last()).push(c.last())
    } else {
        subdirs(c.drop_last())
    }
}

/// The files that lie directly in a directory with the content `c`, in the
/// order of its listing.
pub open spec fn own_files(c: Seq<Node>) -> Seq<PathBuf> {
    files_of(listing_of(c))
}

/// The files that lie below the directories among `c`, at any depth: for
/// each directory in order, its own files and then what lies below its
/// directories.
pub open spec fn below(c: Seq<Node>) -> Seq<PathBuf>
    decreases c,
{
    if c.len() == 0 {
        Seq::empty()
    } else {
        below(c.drop_last()) + (match c.last() {
            Node::File(_) => Seq::empty(),
            Node::Dir(_, k) => own_files(k) + below(k),
        })
    }
}

/// The recursive descent through a directory with the content `c`: its own
/// files first, then each subdirectory in turn.
pub open spec fn walk(c: Seq<Node>) -> Seq<PathBuf> {
    own_files(c) + below(c)
}

/// Every file of the tree with the content `c`, each as often as it occurs.
pub open spec fn all_files(c: Seq<Node>) -> Multiset<PathBuf>
    decreases c,
{
    if c.len() == 0 {
        Multiset::empty()
    } else {
        all_files(c.drop_last()).add(
            match c.last() {
                Node::File(p) => Multiset::singleton(p),
                Node::Dir(_, k) => all_files(k),
            },
        )
    }
}

/// The number of nodes in `c` and below.
pub open spec fn weight(c: Seq<Node>) -> nat
    decreases c,
{
    if c.len() == 0 {
        0
    } else {
        weight(c.drop_last()) + 1 + (match c.last() {
            Node::File(_) => 0,
            Node::Dir(_, k) => weight(k),
        })
    }
}

/// The listing of a directory shows its subdirectories by their paths.
pub proof fn lemma_dirs_of_listing(c: Seq<Node>)
    ensures
        dirs_of(listing_of(c)) == paths_of(subdirs(c)),
    decreases c.len(),
{
    if c.len() > 0 {
        lemma_dirs_of_listing(c.drop_last());
        assert(listing_of(c).drop_last() =~= listing_of(c.drop_last()));
        assert(listing_of(c).last() == c.last().entry());
        if c.last() is Dir {
            assert(paths_of(subdirs(c)) =~= paths_of(subdirs(c.drop_last())).push(
                c.last().path(),
            ));
        }
    } else {
        assert(paths_of(subdirs(c)) =~= Seq::<PathBuf>::empty());
    }
}

/// What lies below two runs of nodes is what lies below the first, then
/// what lies below the second.
pub proof fn lemma_below_concat(a: Seq<Node>, b: Seq<Node>)
    ensures
        below(a + b) == below(a) + below(b),
    decreases b.len(),
{
    if b.len() == 0 {
        assert(a + b =~= a);
        assert(below(a) + below(b) =~= below(a));
    } else {
        lemma_below_concat(a, b.drop_last());
        assert((a + b).drop_last() =~= a + b.drop_last());
        assert((a + b).last() == b.last());
        let tail = match b.last() {
            Node::File(_) => Seq::<PathBuf>::empty(),
            Node::Dir(_, k) => own_files(k) + below(k),
        };
        assert(below(a + b) == below(a + b.drop_last()) + tail);
        assert((below(a) + below(b.drop_last())) + tail =~= below(a) + (below(b.drop_last())
            + tail));
    }
}

/// Files have nothing below them: only the directories among `c` count.
pub proof fn lemma_below_subdirs(c: Seq<Node>)
    ensures
        below(subdirs(c)) == below(c),
    decreases c.len(),
{
    if c.len() > 0 {
        lemma_below_subdirs(c.drop_last());
        if c.last() is Dir {
            let s = subdirs(c.drop_last()).push(c.last());
            assert(s.drop_last() =~= subdirs(c.drop_last()));
            assert(s.last() == c.last());
        } else {
            assert(below(c) =~= below(c.drop_last()));
        }
    }
}

/// The weight of two runs of nodes is the sum of their weights.
pub proof fn lemma_weight_concat(a: Seq<Node>, b: Seq<Node>)
    ensures
        weight(a + b) == weight(a) + weight(b),
    decreases b.len(),
{
    if b.len() == 0 {
        assert(a + b =~= a);
    } else {
        lemma_weight_concat(a, b.drop_last());
        assert((a + b).drop_last() =~= a + b.drop_last());
        assert((a + b).last() == b.last());
    }
}

/// The directories among `c` weigh no more than `c`.
pub proof fn lemma_weight_subdirs(c: Seq<Node>)
    ensures
        weight(subdirs(c)) <= weight(c),
    decreases c.len(),
{
    if c.len() > 0 {
        lemma_weight_subdirs(c.drop_last());
        if c.last() is Dir {
            let s = subdirs(c.drop_last()).push(c.last());
            assert(s.drop_last() =~= subdirs(c.drop_last()));
            assert(s.last() == c.last());
        }
    }
}

/// What lies below a single node: nothing below a file, the whole descent
/// below a directory.
pub proof fn lemma_below_single(n: Node)
    ensures
        below(seq![n]) == walk(n.content()),
{
    let one = seq![n];
    assert(one.drop_last() =~= Seq::<Node>::empty());
    assert(one.last() == n);
    assert(below(one.drop_last()) =~= Seq::<PathBuf>::empty());
    match n {
        Node::File(_) => {
            assert(listing_of(n.content()) =~= Seq::<Entry>::empty());
            assert(below(n.content()) =~= Seq::<PathBuf>::empty());
            assert(walk(n.content()) =~= Seq::<PathBuf>::empty());
            assert(below(one) =~= Seq::<PathBuf>::empty());
        },
        Node::Dir(_, k) => {
            assert(below(one) =~= own_files(k) + below(k));
        },
    }
}

/// The weight of a run of nodes, taken from the front.
pub proof fn lemma_weight_front(pending: Seq<Node>)
    requires
        pending.len() > 0,
    ensures
        weight(pending) == 1 + weight(pending.first().content()) + weight(pending.drop_first()),
{
    let one = seq![pending.first()];
    assert(one.drop_last() =~= Seq::<Node>::empty());
    assert(one.last() == pending.first());
    assert(weight(one.drop_last()) == 0);
    assert(weight(pending.first().content()) == match pending.first() {
        Node::File(_) => 0nat,
        Node::Dir(_, k) => weight(k),
    });
    assert(weight(one) == 1 + weight(pending.first().content()));
    assert(pending =~= one + pending.drop_first());
    lemma_weight_concat(one, pending.drop_first());
}

/// The single worker, run to its end on the directories `pending`, the next
/// one first: it lists the first directory, sends that directory's own
/// files, puts its subdirectories before the directories that were waiting,
/// and goes on. The result is all that it sends, in order.
pub open spec fn drain(pending: Seq<Node>) -> Seq<PathBuf>
    decreases weight(pending),
    via drain_decreases
{
    if pending.len() == 0 {
        Seq::empty()
    } else {
        let c = pending.first().content();
        own_files(c) + drain(subdirs(c) + pending.drop_first())
    }
}

#[via_fn]
proof fn drain_decreases(pending: Seq<Node>) {
    if pending.len() > 0 {
        let c = pending.first().content();
        lemma_weight_front(pending);
        lemma_weight_subdirs(c);
        lemma_weight_concat(subdirs(c), pending.drop_first());
    }
}

/// One step of the worker on the directories `pending` is one step on their
/// paths: the queue's first path is the directory that is listed, and after
/// the step the queue holds the listing's directories and then the paths
/// that were waiting. What the worker sends in all is the listing's files
/// and then what it sends from the new queue on. Each step leaves less of
/// the tree to visit, so on a finite tree the worker ends after finitely
/// many steps, one listing for each.
pub proof fn lemma_step_follows_queue(pending: Seq<Node>)
    requires
        pending.len() > 0,
    ensures
        paths_of(pending)[0] == pending.first().path(),
        paths_of(pending).skip(1) == paths_of(pending.drop_first()),
        files_of(listing_of(pending.first().content())) == own_files(pending.first().content()),
        dirs_of(listing_of(pending.first().content())) + paths_of(pending).skip(1) == paths_of(
            subdirs(pending.first().content()) + pending.drop_first(),
        ),
        drain(pending) == files_of(listing_of(pending.first().content())) + drain(
            subdirs(pending.first().content()) + pending.drop_first(),
        ),
        weight(subdirs(pending.first().content()) + pending.drop_first()) < weight(pending),
{
    let c = pending.first().content();
    lemma_dirs_of_listing(c);
    lemma_weight_front(pending);
    lemma_weight_subdirs(c);
    lemma_weight_concat(subdirs(c), pending.drop_first());
    assert(paths_of(pending).skip(1) =~= paths_of(pending.drop_first()));
    assert(paths_of(subdirs(c)) + paths_of(pending.drop_first()) =~= paths_of(
        subdirs(c) + pending.drop_first(),
    ));
}

/// The worker's worklist sends what the recursive descent sends, in the same
/// order: for each waiting directory in turn, all that lies in and below it.
pub proof fn lemma_drain_is_descent(pending: Seq<Node>)
    ensures
        drain(pending) == below(pending),
    decreases weight(pending),
{
    if pending.len() > 0 {
        let n = pending.first();
        let c = n.content();
        let rest = pending.drop_first();
        lemma_weight_front(pending);
        lemma_weight_subdirs(c);
        lemma_weight_concat(subdirs(c), rest);
        lemma_drain_is_descent(subdirs(c) + rest);
        lemma_below_concat(subdirs(c), rest);
        lemma_below_subdirs(c);
        assert(pending =~= seq![n] + rest);
        lemma_below_concat(seq![n], rest);
        lemma_below_single(n);
        assert(own_files(c) + (below(c) + below(rest)) =~= (own_files(c) + below(c)) + below(
            rest,
        ));
    }
}

/// Started on a root with the content `c`, the single worker sends the
/// root's own files and then all that lies below its subdirectories.
pub proof fn lemma_drain_root(root: PathBuf, c: Seq<Node>)
    ensures
        drain(seq![Node::Dir(root, c)]) == walk(c),
        drain(seq![Node::Dir(root, c)]) == own_files(c) + below(c),
        paths_of(seq![Node::Dir(root, c)]) == seq![root],
{
    lemma_drain_is_descent(seq![Node::Dir(root, c)]);
    lemma_below_single(Node::Dir(root, c));
    assert(paths_of(seq![Node::Dir(root, c)]) =~= seq![root]);
}

/// Whether the node `d` is one of `c` or lies below one of them.
pub open spec fn within(c: Seq<Node>, d: Node) -> bool
    decreases c,
{
    if c.len() == 0 {
        false
    } else {
        within(c.drop_last(), d) || c.last() == d || (match c.last() {
            Node::File(_) => false,
            Node::Dir(_, k) => within(k, d),
        })
    }
}

/// The order of the single worker, for every directory of the tree: the
/// directory's own files come in one run, and directly after it come all the
/// files below its subdirectories. So each file of a directory is sent
/// before each file below it.
pub proof fn lemma_own_files_before_descendants(c: Seq<Node>, d: Node)
    requires
        within(c, d),
    ensures
        exists|before: Seq<PathBuf>, after: Seq<PathBuf>|
            below(c) == before + own_files(d.content()) + below(d.content()) + after,
    decreases c,
{
    let init = c.drop_last();
    let tail = match c.last() {
        Node::File(_) => Seq::<PathBuf>::empty(),
        Node::Dir(_, k) => own_files(k) + below(k),
    };
    let own = own_files(d.content());
    let low = below(d.content());
    assert(below(c) == below(init) + tail);
    if within(init, d) {
        lemma_own_files_before_descendants(init, d);
        let (b, a) = choose|b: Seq<PathBuf>, a: Seq<PathBuf>| below(init) == b + own + low + a;
        assert(below(c) =~= b + own + low + (a + tail));
    } else if c.last() == d {
        lemma_below_single(d);
        assert(below(seq![d]) =~= tail) by {
            assert(seq![d].drop_last() =~= Seq::<Node>::empty());
            assert(below(seq![d].drop_last()) =~= Seq::<PathBuf>::empty());
        }
        assert(below(c) =~= below(init) + own + low + Seq::<PathBuf>::empty());
    } else {
        match c.last() {
            Node::File(_) => {},
            Node::Dir(_, k) => {
                lemma_own_files_before_descendants(k, d);
                let (b, a) = choose|b: Seq<PathBuf>, a: Seq<PathBuf>|
                    below(k) == b + own + low + a;
                assert(below(c) =~= (below(init) + own_files(k) + b) + own + low + a);
            },
        }
    }
}

/// Whether `run` stands in `out` as one piece that begins at position `at`.
pub open spec fn stands_at(out: Seq<PathBuf>, at: int, run: Seq<PathBuf>) -> bool {
    &&& 0 <= at
    &&& at + run.len() <= out.len()
    &&& out.subrange(at, at + run.len()) == run
}

/// The order of the single worker, for every directory among `pending` or
/// below them: the descent through that directory stands in one piece in
/// what the worker sends. The piece begins with the directory's own files,
/// and all the files below its subdirectories follow them directly. So each
/// file of a directory is sent before each file below it.
pub proof fn lemma_drain_order(pending: Seq<Node>, d: Node)
    requires
        within(pending, d),
    ensures
        walk(d.content()) == own_files(d.content()) + below(d.content()),
        exists|at: int| #[trigger] stands_at(drain(pending), at, walk(d.content())),
{
    lemma_drain_is_descent(pending);
    lemma_own_files_before_descendants(pending, d);
    let own = own_files(d.content());
    let low = below(d.content());
    let (before, after) = choose|before: Seq<PathBuf>, after: Seq<PathBuf>|
        below(pending) == before + own + low + after;
    let at = before.len() as int;
    assert(drain(pending).subrange(at, at + walk(d.content()).len()) =~= walk(d.content()));
    assert(stands_at(drain(pending), at, walk(d.content())));
}

/// Whether `p` is the path of a directory among `c` or below them.
pub open spec fn is_dir_path(c: Seq<Node>, p: PathBuf) -> bool
    decreases c,
{
    if c.len() == 0 {
        false
    } else {
        is_dir_path(c.drop_last(), p) || (match c.last() {
            Node::File(_) => false,
            Node::Dir(q, k) => q == p || is_dir_path(k, p),
        })
    }
}

/// The recursive descent sends every file of the tree exactly as often as
/// the tree holds it, and nothing that is not a file of the tree. So it
/// sends as many paths as the tree has files; it sends no path twice if no
/// two files of the tree share a path; and it sends no directory if no
/// directory of the tree shares its path with a file.
pub proof fn lemma_walk_is_all_files(c: Seq<Node>)
    ensures
        walk(c).to_multiset() == all_files(c),
        walk(c).len() == all_files(c).len(),
        forall|i: int| 0 <= i < walk(c).len() ==> all_files(c).count(#[trigger] walk(c)[i]) > 0,
        (forall|p: PathBuf| all_files(c).count(p) <= 1) ==> walk(c).no_duplicates(),
        (forall|p: PathBuf| #[trigger] is_dir_path(c, p) ==> all_files(c).count(p) == 0) ==> (
        forall|i: int| 0 <= i < walk(c).len() ==> !is_dir_path(c, #[trigger] walk(c)[i])),
{
    broadcast use vstd::multiset::group_multiset_axioms;

    lemma_split_is_all_files(c);
    vstd::seq_lib::lemma_multiset_commutative(own_files(c), below(c));
    assert(walk(c).to_multiset() =~= all_files(c));
    vstd::seq_lib::to_multiset_len(walk(c));
    assert forall|i: int| 0 <= i < walk(c).len() implies all_files(c).count(
        #[trigger] walk(c)[i],
    ) > 0 by {
        vstd::seq_lib::to_multiset_contains(walk(c), walk(c)[i]);
    }
    if forall|p: PathBuf| all_files(c).count(p) <= 1 {
        assert forall|x: PathBuf| walk(c).to_multiset().contains(x) implies walk(
            c,
        ).to_multiset().count(x) == 1 by {
            assert(all_files(c).count(x) <= 1);
        }
        walk(c).lemma_multiset_has_no_duplicates_conv();
    }
}

/// The single worker is complete: started on a root with the content `c`,
/// it sends every file of the tree exactly as often as the tree holds it,
/// and so as many paths as the tree has files, none of them twice if no two
/// files of the tree share a path.
pub proof fn lemma_single_worker_is_complete(root: PathBuf, c: Seq<Node>)
    ensures
        drain(seq![Node::Dir(root, c)]).to_multiset() == all_files(c),
        drain(seq![Node::Dir(root, c)]).len() == all_files(c).len(),
        (forall|p: PathBuf| all_files(c).count(p) <= 1) ==> drain(
            seq![Node::Dir(root, c)],
        ).no_duplicates(),
{
    lemma_drain_root(root, c);
    lemma_walk_is_all_files(c);
}

/// An empty run of paths holds no path.
proof fn lemma_nothing_sent(s: Seq<PathBuf>)
    requires
        s.len() == 0,
    ensures
        s.to_multiset() == Multiset::<PathBuf>::empty(),
{
    vstd::seq_lib::to_multiset_len(s);
    vstd::multiset::lemma_multiset_empty_len(s.to_multiset());
}

/// The files of a tree are the files that lie directly in its root
/// together with those below the root's subdirectories.
pub proof fn lemma_split_is_all_files(c: Seq<Node>)
    ensures
        own_files(c).to_multiset().add(below(c).to_multiset()) == all_files(c),
    decreases c,
{
    broadcast use vstd::multiset::group_multiset_axioms;

    if c.len() == 0 {
        assert(listing_of(c) =~= Seq::<Entry>::empty());
        assert(own_files(c) =~= Seq::<PathBuf>::empty());
        lemma_nothing_sent(own_files(c));
        lemma_nothing_sent(below(c));
        assert(own_files(c).to_multiset().add(below(c).to_multiset()) =~= all_files(c));
    } else {
        let init = c.drop_last();
        lemma_split_is_all_files(init);
        assert(listing_of(c).drop_last() =~= listing_of(init));
        assert(listing_of(c).last() == c.last().entry());
        match c.last() {
            Node::File(p) => {
                assert(own_files(c) == own_files(init).push(p));
                vstd::seq_lib::to_multiset_build(own_files(init), p);
                assert(below(c) =~= below(init));
                assert(own_files(c).to_multiset().add(below(c).to_multiset()) =~= all_files(c));
            },
            Node::Dir(_, k) => {
                lemma_split_is_all_files(k);
                assert(own_files(c) == own_files(init));
                vstd::seq_lib::lemma_multiset_commutative(own_files(k), below(k));
                vstd::seq_lib::lemma_multiset_commutative(below(init), own_files(k) + below(k));
                assert(own_files(c).to_multiset().add(below(c).to_multiset()) =~= all_files(c));
            },
        }
    }
}

/// All that the fan-out tasks send for a directory with the content `c`:
/// the task of the directory sends its own files, and each subdirectory has
/// a task of its own that does the same. Tasks run in any order, so the
/// result has none.
pub open spec fn fan_out(c: Seq<Node>) -> Multiset<PathBuf> {
    own_files(c).to_multiset().add(spawned(c))
}

/// All that is sent by the tasks spawned for the directories among `c`, and
/// by the tasks that these spawn in turn.
pub open spec fn spawned(c: Seq<Node>) -> Multiset<PathBuf>
    decreases c,
{
    if c.len() == 0 {
        Multiset::empty()
    } else {
        spawned(c.drop_last()).add(
            match c.last() {
                Node::File(_) => Multiset::empty(),
                Node::Dir(_, k) => own_files(k).to_multiset().add(spawned(k)),
            },
        )
    }
}

/// The spawned tasks send what the single worker sends below the same
/// directories, in whatever order.
pub proof fn lemma_spawned_is_below(c: Seq<Node>)
    ensures
        spawned(c) == below(c).to_multiset(),
    decreases c,
{
    broadcast use vstd::multiset::group_multiset_axioms;

    if c.len() == 0 {
        lemma_nothing_sent(below(c));
        assert(spawned(c) =~= below(c).to_multiset());
    } else {
        let init = c.drop_last();
        lemma_spawned_is_below(init);
        match c.last() {
            Node::File(_) => {
                assert(below(c) =~= below(init));
                assert(spawned(c) =~= below(c).to_multiset());
            },
            Node::Dir(_, k) => {
                lemma_spawned_is_below(k);
                vstd::seq_lib::lemma_multiset_commutative(own_files(k), below(k));
                vstd::seq_lib::lemma_multiset_commutative(below(init), own_files(k) + below(k));
                assert(spawned(c) =~= below(c).to_multiset());
            },
        }
    }
}

/// Fan-out is complete: whatever the order in which the tasks run, together
/// they send every file of the tree exactly as often as the tree holds it,
/// which is what the single worker sends.
pub proof fn lemma_fan_out_is_all_files(c: Seq<Node>)
    ensures
        fan_out(c) == all_files(c),
        fan_out(c) == walk(c).to_multiset(),
        fan_out(c).len() == walk(c).len(),
{
    lemma_spawned_is_below(c);
    lemma_split_is_all_files(c);
    lemma_walk_is_all_files(c);
}

/// A file's path stands among a directory's own files as often as the file
/// stands in the directory's content.
pub proof fn lemma_own_files_count(c: Seq<Node>, p: PathBuf)
    ensures
        own_files(c).to_multiset().count(p) == c.to_multiset().count(Node::File(p)),
    decreases c.len(),
{
    broadcast use vstd::multiset::group_multiset_axioms;

    if c.len() == 0 {
        assert(listing_of(c) =~= Seq::<Entry>::empty());
        lemma_nothing_sent(own_files(c));
        vstd::seq_lib::to_multiset_len(c);
        vstd::multiset::lemma_multiset_empty_len(c.to_multiset());
    } else {
        let init = c.drop_last();
        lemma_own_files_count(init, p);
        assert(c =~= init.push(c.last()));
        vstd::seq_lib::to_multiset_build(init, c.last());
        assert(listing_of(c).drop_last() =~= listing_of(init));
        assert(listing_of(c).last() == c.last().entry());
        match c.last() {
            Node::File(q) => {
                assert(own_files(c) == own_files(init).push(q));
                vstd::seq_lib::to_multiset_build(own_files(init), q);
            },
            Node::Dir(_, _) => {
                assert(own_files(c) == own_files(init));
            },
        }
    }
}

/// The order of a listing does not change which files are a directory's
/// own: two contents with the same nodes, in whatever order, give the same
/// files, each as often.
pub proof fn lemma_own_files_any_order(a: Seq<Node>, b: Seq<Node>)
    requires
        a.to_multiset() == b.to_multiset(),
    ensures
        own_files(a).to_multiset() == own_files(b).to_multiset(),
        own_files(a).len() == own_files(b).len(),
{
    assert forall|p: PathBuf|
        own_files(a).to_multiset().count(p) == own_files(b).to_multiset().count(p) by {
        lemma_own_files_count(a, p);
        lemma_own_files_count(b, p);
    }
    assert(own_files(a).to_multiset() =~= own_files(b).to_multiset());
    vstd::seq_lib::to_multiset_len(own_files(a));
    vstd::seq_lib::to_multiset_len(own_files(b));
}

/// The descent through a directory without subdirectories is its own files.
pub proof fn lemma_walk_leaf(c: Seq<Node>)
    requires
        subdirs(c).len() == 0,
    ensures
        walk(c) == own_files(c),
{
    lemma_below_subdirs(c);
    assert(below(c) =~= Seq::<PathBuf>::empty());
    assert(walk(c) =~= own_files(c));
}

/// The descent through a directory with the one subdirectory `d` is its own
/// files and then the descent through `d`, wherever `d` stands in the
/// listing.
pub proof fn lemma_walk_one_subdir(c: Seq<Node>, d: Node)
    requires
        subdirs(c) == seq![d],
    ensures
        walk(c) == own_files(c) + walk(d.content()),
{
    lemma_below_subdirs(c);
    lemma_below_single(d);
}

/// Directories nested one in the other, three deep, each listed in any
/// order: the single worker sends the files of the first, then those of the
/// second, then those of the third; the fan-out tasks send the same files,
/// each as often, in whatever order.
pub proof fn lemma_nested_directories(root: PathBuf, c: Seq<Node>, d1: Node, d2: Node)
    requires
        subdirs(c) == seq![d1],
        subdirs(d1.content()) == seq![d2],
        subdirs(d2.content()).len() == 0,
    ensures
        drain(seq![Node::Dir(root, c)]) == own_files(c) + own_files(d1.content()) + own_files(
            d2.content(),
        ),
        fan_out(c) == (own_files(c) + own_files(d1.content()) + own_files(
            d2.content(),
        )).to_multiset(),
{
    lemma_drain_root(root, c);
    lemma_walk_one_subdir(c, d1);
    lemma_walk_one_subdir(d1.content(), d2);
    lemma_walk_leaf(d2.content());
    assert(walk(c) =~= own_files(c) + own_files(d1.content()) + own_files(d2.content()));
    lemma_fan_out_is_all_files(c);
}

/// The number of listings that the single worker asks for on the
/// directories `pending` until nothing is left to visit.
pub open spec fn listings(pending: Seq<Node>) -> nat
    decreases weight(pending),
    via listings_decreases
{
    if pending.len() == 0 {
        0
    } else {
        1 + listings(subdirs(pending.first().content()) + pending.drop_first())
    }
}

#[via_fn]
proof fn listings_decreases(pending: Seq<Node>) {
    if pending.len() > 0 {
        lemma_step_follows_queue(pending);
    }
}

/// The single worker ends: on a finite tree it asks for no more listings
/// than the tree has nodes, whoever takes what it sends and whether anyone
/// does. What it sends in all is one path for each file, as
/// `lemma_single_worker_is_complete` states.
pub proof fn lemma_worker_ends(pending: Seq<Node>)
    ensures
        listings(pending) <= weight(pending),
    decreases weight(pending),
{
    if pending.len() > 0 {
        lemma_step_follows_queue(pending);
        lemma_worker_ends(subdirs(pending.first().content()) + pending.drop_first());
    }
}

} // verus!
