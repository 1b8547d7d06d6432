//! The front end: the root, the choice of producer, and the one session
//! that the first pull starts.

use crate::result::{Cause, Error, ErrorKind};
use std::path::PathBuf;
use vstd::prelude::*;

verus! {

/// How far the one production session of a [`ReadDir`] has come.
#[derive(Debug, Clone, Copy, PartialEq, Eq, Structural)]
pub enum Session {
    /// Nothing has been pulled yet and no producer runs.
    NotStarted,
    /// The producer was started; items may still arrive.
    Running,
    /// The channel was seen closed: the sequence has ended for good.
    Exhausted,
}

/// What a pull comes to.
#[derive(Debug)]
pub enum Pull {
    /// The session has just begun. The caller starts the producer on the
    /// given root (`true`: fan-out, `false`: the single worker), takes from
    /// its channel and pulls again.
    Start(PathBuf, bool),
    /// The next item of the sequence: a path, or the error that ended the
    /// branch in which it arose.
    Item(Result<PathBuf, Error>),
    /// The sequence has ended. No item follows.
    End,
}

/// Reads a directory recursively: first the files of a directory, then its
/// subdirectories.
#[derive(Debug)]
pub struct ReadDir {
    root: PathBuf,
    session: Session,
    is_multithreaded: bool,
}

/// `PathBuf::clone`: the copy is equal to the path it was made from.
#[verifier::external_body]
fn clone_path(path: &PathBuf) -> (copy: PathBuf)
    ensures
        copy == *path,
{
    path.clone()
}

/// The arrivals at the consumer when `items` come in, one by one.
pub open spec fn arrivals_of(items: Seq<Result<PathBuf, Error>>) -> Seq<
    Option<Result<PathBuf, Error>>,
> {
    items.map_values(|item: Result<PathBuf, Error>| Some(item))
}

impl ReadDir {
    /// The resolved root.
    pub closed spec fn root_spec(&self) -> PathBuf {
        self.root
    }

    /// The state of the session.
    pub closed spec fn session(&self) -> Session {
        self.session
    }

    /// Whether the fan-out producer is selected.
    pub closed spec fn multithreaded(&self) -> bool {
        self.is_multithreaded
    }

    /// The value that a construction on the resolved path `root` gives.
    pub closed spec fn fresh(root: PathBuf) -> ReadDir {
        ReadDir { root, session: Session::NotStarted, is_multithreaded: false }
    }

    /// The value after a start: a session that has not begun is running, any
    /// other is left as it is.
    pub closed spec fn started(self) -> ReadDir {
        if self.session == Session::NotStarted {
            ReadDir { session: Session::Running, ..self }
        } else {
            self
        }
    }

    /// The value after a pull to which the channel gave `received`: the
    /// first pull starts the session, and a running session ends when the
    /// channel is seen closed.
    pub closed spec fn pulled(self, received: Option<Result<PathBuf, Error>>) -> ReadDir {
        match self.session {
            Session::NotStarted => ReadDir { session: Session::Running, ..self },
            Session::Running => if received.is_none() {
                ReadDir { session: Session::Exhausted, ..self }
            } else {
                self
            },
            Session::Exhausted => self,
        }
    }

    /// What a pull comes to when the channel gave `received`.
    pub closed spec fn handed(self, received: Option<Result<PathBuf, Error>>) -> Pull {
        match self.session {
            Session::NotStarted => Pull::Start(self.root, self.is_multithreaded),
            Session::Running => match received {
                Some(item) => Pull::Item(item),
                None => Pull::End,
            },
            Session::Exhausted => Pull::End,
        }
    }

    /// The value after one pull for each of `arrivals`, in order.
    pub open spec fn pulled_all(self, arrivals: Seq<Option<Result<PathBuf, Error>>>) -> ReadDir
        decreases arrivals.len(),
    {
        if arrivals.len() == 0 {
            self
        } else {
            self.pulled_all(arrivals.drop_last()).pulled(arrivals.last())
        }
    }

    /// Attempts to create a new iterator from the outcome of resolving the
    /// root directory. Nothing is started.
    pub fn try_new(resolved: Result<PathBuf, std::io::Error>) -> (r: Result<ReadDir, Error>)
        ensures
            match resolved {
                Ok(root) => r == Ok::<ReadDir, Error>(ReadDir::fresh(root)),
                Err(e) => r == Err::<ReadDir, Error>(Error::wrap(Cause::Io(e))),
            },
            r is Err ==> r->Err_0.kind_spec() == ErrorKind::File,
            r is Ok ==> r->Ok_0.session() == Session::NotStarted && !r->Ok_0.multithreaded(),
            r is Ok ==> resolved is Ok && r->Ok_0.root_spec() == resolved->Ok_0,
    {
        match resolved {
            Ok(root) => Ok(ReadDir { root, session: Session::NotStarted, is_multithreaded: false }),
            Err(e) => {
                proof {
                    Error::lemma_wrap(Cause::Io(e));
                }
                Err(Error::from(e))
            },
        }
    }

    /// Returns the root directory.
    pub fn root(&self) -> (root: &PathBuf)
        ensures
            *root == self.root_spec(),
    {
        &self.root
    }

    /// Whether the fan-out producer is selected.
    pub fn is_multithreaded(&self) -> (b: bool)
        ensures
            b == self.multithreaded(),
    {
        self.is_multithreaded
    }

    /// The state of the session.
    pub fn state(&self) -> (s: Session)
        ensures
            s == self.session(),
    {
        self.session
    }

    /// Selects the producer: fan-out if `multithreaded`, else the single
    /// worker. The choice is open until the first pull; after that the call
    /// changes nothing and returns `false`.
    pub fn set_mode(&mut self, multithreaded: bool) -> (applied: bool)
        ensures
            applied == (old(self).session() == Session::NotStarted),
            final(self).root_spec() == old(self).root_spec(),
            final(self).session() == old(self).session(),
            final(self).multithreaded() == if applied {
                multithreaded
            } else {
                old(self).multithreaded()
            },
    {
        if self.session == Session::NotStarted {
            self.is_multithreaded = multithreaded;
            true
        } else {
            false
        }
    }

    /// Starts the session if it has not been started. The call that starts
    /// it returns the choice of producer (`true`: fan-out). Every other call
    /// returns `None` and changes nothing.
    fn run(&mut self) -> (start: Option<bool>)
        ensures
            *final(self) == old(self).started(),
            start == if old(self).session() == Session::NotStarted {
                Some(old(self).multithreaded())
            } else {
                None
            },
            final(self).session() == if old(self).session() == Session::NotStarted {
                Session::Running
            } else {
                old(self).session()
            },
            final(self).root_spec() == old(self).root_spec(),
            final(self).multithreaded() == old(self).multithreaded(),
    {
        if self.session == Session::NotStarted {
            self.session = Session::Running;
            Some(self.is_multithreaded)
        } else {
            None
        }
    }

    /// Advances the iterator. `received` is what the session's channel gave
    /// to this pull: an item, or `None` if it is closed and empty, or if
    /// there is no channel yet.
    ///
    /// The first pull starts the session and says which producer to start,
    /// and on which root; before the start no channel exists, and `received`
    /// is not looked at.
    /// A running session hands the item on, and ends when the channel is
    /// closed. After the end every pull gives the end again.
    pub fn next(&mut self, received: Option<Result<PathBuf, Error>>) -> (pull: Pull)
        ensures
            *final(self) == old(self).pulled(received),
            pull == old(self).handed(received),
            final(self).root_spec() == old(self).root_spec(),
            final(self).multithreaded() == old(self).multithreaded(),
            final(self).session() != Session::NotStarted,
            old(self).session() == Session::NotStarted ==> pull == Pull::Start(
                old(self).root_spec(),
                old(self).multithreaded(),
            ) && final(self).session() == Session::Running,
            old(self).session() == Session::Running && received is Some ==> pull == Pull::Item(
                received->Some_0,
            ) && final(self).session() == Session::Running,
            old(self).session() == Session::Running && received is None ==> pull == Pull::End
                && final(self).session() == Session::Exhausted,
            old(self).session() == Session::Exhausted ==> pull == Pull::End,
            old(self).session() == Session::Exhausted ==> final(self).session()
                == Session::Exhausted,
    {
        match self.run() {
            Some(multithreaded) => Pull::Start(clone_path(&self.root), multithreaded),
            None => {
                if self.session == Session::Running {
                    match received {
                        Some(item) => Pull::Item(item),
                        None => {
                            self.session = Session::Exhausted;
                            Pull::End
                        },
                    }
                } else {
                    Pull::End
                }
            },
        }
    }

    /// A construction keeps the resolved path, starts nothing and selects
    /// the single worker.
    pub proof fn lemma_fresh(root: PathBuf)
        ensures
            ReadDir::fresh(root).root_spec() == root,
            ReadDir::fresh(root).session() == Session::NotStarted,
            !ReadDir::fresh(root).multithreaded(),
    {
    }

    /// Two constructions have equal roots exactly when their resolved paths
    /// are equal.
    pub proof fn lemma_same_path_same_root(a: PathBuf, b: PathBuf)
        ensures
            (ReadDir::fresh(a).root_spec() == ReadDir::fresh(b).root_spec()) <==> a == b,
            a == b ==> ReadDir::fresh(a) == ReadDir::fresh(b),
    {
    }

    /// A start begins the session exactly once: it never touches the root or
    /// the choice of producer, it leaves no session unstarted, and a second
    /// start changes nothing.
    pub proof fn lemma_start_once(w: ReadDir)
        ensures
            w.started().root_spec() == w.root_spec(),
            w.started().multithreaded() == w.multithreaded(),
            w.started().session() != Session::NotStarted,
            w.session() == Session::NotStarted ==> w.started().session() == Session::Running,
            w.session() != Session::NotStarted ==> w.started() == w,
            w.started().started() == w.started(),
    {
    }

    /// The first pull starts the one session: a pull says which producer to
    /// start exactly when nothing was started before, on the root and with
    /// the choice made by then, and leaves the session started. So after any pull no later
    /// pull and no later start begins another session.
    pub proof fn lemma_first_pull_starts(
        w: ReadDir,
        received: Option<Result<PathBuf, Error>>,
        later: Option<Result<PathBuf, Error>>,
    )
        ensures
            w.handed(received) is Start <==> w.session() == Session::NotStarted,
            w.session() == Session::NotStarted ==> w.handed(received) == Pull::Start(
                w.root_spec(),
                w.multithreaded(),
            ) && w.pulled(received) == w.started(),
            w.pulled(received).session() != Session::NotStarted,
            w.pulled(received).root_spec() == w.root_spec(),
            w.pulled(received).multithreaded() == w.multithreaded(),
            !(w.pulled(received).handed(later) is Start),
            w.pulled(received).started() == w.pulled(received),
            !(w.started().handed(later) is Start),
    {
    }

    /// The end is final: a pull gives the end only when it leaves the
    /// session exhausted, and an exhausted session stays as it is and gives
    /// the end to every pull. So no item ever follows an end.
    pub proof fn lemma_end_is_final(
        w: ReadDir,
        received: Option<Result<PathBuf, Error>>,
        later: Option<Result<PathBuf, Error>>,
    )
        ensures
            w.handed(received) is End <==> w.pulled(received).session() == Session::Exhausted,
            w.session() == Session::Exhausted ==> w.pulled(received) == w && w.handed(received)
                == Pull::End,
            w.handed(received) is End ==> w.pulled(received).handed(later) == Pull::End
                && w.pulled(received).pulled(later) == w.pulled(received),
            w.session() == Session::Running ==> w.handed(received) == match received {
                Some(item) => Pull::Item(item),
                None => Pull::End,
            },
    {
    }

    /// While items arrive, a running session stays as it is.
    pub proof fn lemma_items_keep_running(w: ReadDir, items: Seq<Result<PathBuf, Error>>)
        requires
            w.session() == Session::Running,
        ensures
            w.pulled_all(arrivals_of(items)) == w,
        decreases items.len(),
    {
        if items.len() > 0 {
            Self::lemma_items_keep_running(w, items.drop_last());
            assert(arrivals_of(items).drop_last() =~= arrivals_of(items.drop_last()));
            assert(arrivals_of(items).last() == Some(items.last()));
        }
    }

    /// A drain: a running session that is given `items` one by one, and
    /// then the closed channel, hands out each item once, in the order of
    /// arrival, be it a path or an error, and then the end; after the end it
    /// gives the end again, whatever arrives.
    pub proof fn lemma_drain(w: ReadDir, items: Seq<Result<PathBuf, Error>>)
        requires
            w.session() == Session::Running,
        ensures
            forall|i: int|
                0 <= i < items.len() ==> w.pulled_all(#[trigger] arrivals_of(items).take(i)).handed(
                    Some(items[i]),
                ) == Pull::Item(items[i]),
            w.pulled_all(arrivals_of(items)).handed(None) == Pull::End,
            w.pulled_all(arrivals_of(items).push(None)).session() == Session::Exhausted,
            w.pulled_all(arrivals_of(items).push(None)).root_spec() == w.root_spec(),
            forall|late: Option<Result<PathBuf, Error>>|
                #[trigger] w.pulled_all(arrivals_of(items).push(None)).handed(late) == Pull::End,
            forall|late: Option<Result<PathBuf, Error>>|
                #[trigger] w.pulled_all(arrivals_of(items).push(None)).pulled(late) == w.pulled_all(
                    arrivals_of(items).push(None),
                ),
    {
        let arrivals = arrivals_of(items);
        assert forall|i: int| 0 <= i < items.len() implies w.pulled_all(
            #[trigger] arrivals_of(items).take(i),
        ).handed(Some(items[i])) == Pull::Item(items[i]) by {
            Self::lemma_items_keep_running(w, items.take(i));
            assert(arrivals.take(i) =~= arrivals_of(items.take(i)));
        }
        Self::lemma_items_keep_running(w, items);
        assert(arrivals.push(None).drop_last() =~= arrivals);
        assert(arrivals.push(None).last() == None::<Result<PathBuf, Error>>);
    }
}

} // verus!
