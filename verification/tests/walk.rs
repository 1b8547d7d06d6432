use fs_helper::{spawn_after, visit_multithreaded, Entry, Error, Pull, ReadDir, Session, Visit};
use std::path::PathBuf;

fn p(s: &str) -> PathBuf {
    PathBuf::from(s)
}

fn file(s: &str) -> Entry {
    Entry { path: p(s), is_dir: false }
}

fn dir(s: &str) -> Entry {
    Entry { path: p(s), is_dir: true }
}

/// A small tree held in memory: three files and a directory at the root,
/// three files and a directory below it, five files at the bottom.
fn list(d: &PathBuf) -> Vec<Entry> {
    if *d == p("/root") {
        vec![
            file("/root/file1.txt"),
            dir("/root/subdir1"),
            file("/root/file2.txt"),
            file("/root/file3.txt"),
        ]
    } else if *d == p("/root/subdir1") {
        vec![
            file("/root/subdir1/file11.txt"),
            file("/root/subdir1/file12.txt"),
            dir("/root/subdir1/subdir2"),
            file("/root/subdir1/file13.txt"),
        ]
    } else if *d == p("/root/subdir1/subdir2") {
        vec![
            file("/root/subdir1/subdir2/file21.txt"),
            file("/root/subdir1/subdir2/file22.txt"),
            file("/root/subdir1/subdir2/file23.txt"),
            file("/root/subdir1/subdir2/file24.txt"),
            file("/root/subdir1/subdir2/file25.txt"),
        ]
    } else {
        panic!("not a directory of the tree")
    }
}

fn expected() -> Vec<PathBuf> {
    vec![
        p("/root/file1.txt"),
        p("/root/file2.txt"),
        p("/root/file3.txt"),
        p("/root/subdir1/file11.txt"),
        p("/root/subdir1/file12.txt"),
        p("/root/subdir1/file13.txt"),
        p("/root/subdir1/subdir2/file21.txt"),
        p("/root/subdir1/subdir2/file22.txt"),
        p("/root/subdir1/subdir2/file23.txt"),
        p("/root/subdir1/subdir2/file24.txt"),
        p("/root/subdir1/subdir2/file25.txt"),
    ]
}

/// Plays the single worker against the tree in memory.
fn produce(root: &PathBuf) -> Vec<PathBuf> {
    let mut sent = Vec::new();
    let mut worker = Visit::new(root.clone());
    while let Some(d) = worker.next_dir() {
        let listing = list(&d);
        sent.extend(worker.visit(Ok(listing)).unwrap());
    }
    assert!(worker.is_done());
    sent
}

/// Plays the fan-out tasks against the tree in memory; the task that was
/// spawned last runs first.
fn produce_fan_out(root: &PathBuf) -> (Vec<PathBuf>, usize) {
    let mut sent = Vec::new();
    let mut tasks = vec![root.clone()];
    let mut started = 0;
    while let Some(d) = tasks.pop() {
        started += 1;
        let plan = visit_multithreaded(Ok(list(&d))).unwrap();
        sent.extend(plan.send);
        tasks.extend(spawn_after(plan.spawn, Ok(())).unwrap());
    }
    (sent, started)
}

#[test]
fn read_dir_new() {
    let rd = ReadDir::try_new(Ok(p("/root"))).unwrap();
    assert_eq!(rd.root(), &p("/root"));
    assert_eq!(rd.state(), Session::NotStarted);
    assert!(!rd.is_multithreaded());
}

/// Pulls until the end, with `sent` as what the producers put into the
/// channel; starts the producer when the first pull says so.
fn drain(rd: &mut ReadDir, fan_out: bool) -> Vec<PathBuf> {
    let mut channel: Option<std::vec::IntoIter<PathBuf>> = None;
    let mut seen = Vec::new();
    let mut started = 0;
    loop {
        let received: Option<Result<PathBuf, Error>> = match &mut channel {
            Some(items) => items.next().map(Ok),
            None => None,
        };
        match rd.next(received) {
            Pull::Start(root, multithreaded) => {
                assert_eq!(&root, rd.root());
                assert_eq!(multithreaded, fan_out);
                started += 1;
                let sent = if multithreaded {
                    produce_fan_out(&root).0
                } else {
                    produce(&root)
                };
                channel = Some(sent.into_iter());
            }
            Pull::Item(item) => {
                let path = item.unwrap();
                println!("{}", path.display());
                seen.push(path);
            }
            Pull::End => break,
        }
    }
    assert_eq!(started, 1);
    seen
}

#[test]
fn read_dir_next() {
    let mut rd = ReadDir::try_new(Ok(p("/root"))).unwrap();
    let seen = drain(&mut rd, false);
    assert_eq!(seen, expected());
    assert_eq!(rd.state(), Session::Exhausted);
    assert!(matches!(rd.next(None), Pull::End));
}

#[test]
fn read_dir_next_multithreaded() {
    let mut rd = ReadDir::try_new(Ok(p("/root"))).unwrap();
    assert!(rd.set_mode(true));
    let seen = drain(&mut rd, true);
    assert_eq!(produce_fan_out(rd.root()).1, 3);
    assert_eq!(seen.len(), 11);
    let mut sorted = seen.clone();
    sorted.sort();
    sorted.dedup();
    assert_eq!(sorted, expected());
    assert_eq!(rd.state(), Session::Exhausted);
}

#[test]
fn single_worker_yields_each_file_once_and_no_directory() {
    let sent = produce(&p("/root"));
    assert_eq!(sent.len(), 11);
    let mut sorted = sent.clone();
    sorted.sort();
    sorted.dedup();
    assert_eq!(sorted.len(), 11);
    assert!(!sent.contains(&p("/root/subdir1")));
    assert!(!sent.contains(&p("/root/subdir1/subdir2")));
    assert!(!sent.contains(&p("/root")));
}

#[test]
fn single_worker_sends_a_directory_before_what_is_below_it() {
    let sent = produce(&p("/root"));
    let at = |s: &str| sent.iter().position(|x| *x == p(s)).unwrap();
    assert!(at("/root/file3.txt") < at("/root/subdir1/file11.txt"));
    assert!(at("/root/file1.txt") < at("/root/subdir1/subdir2/file21.txt"));
    assert!(at("/root/subdir1/file13.txt") < at("/root/subdir1/subdir2/file21.txt"));
}

#[test]
fn single_worker_finishes_a_subtree_before_its_sibling() {
    let mut worker = Visit::new(p("/r"));
    assert_eq!(worker.next_dir(), Some(p("/r")));
    let files = worker.visit(Ok(vec![dir("/r/a"), file("/r/f"), dir("/r/b")])).unwrap();
    assert_eq!(files, vec![p("/r/f")]);
    assert_eq!(worker.next_dir(), Some(p("/r/a")));
    let files = worker.visit(Ok(vec![dir("/r/a/x"), file("/r/a/g"), dir("/r/a/y")])).unwrap();
    assert_eq!(files, vec![p("/r/a/g")]);
    assert_eq!(worker.next_dir(), Some(p("/r/a/x")));
    assert_eq!(worker.visit(Ok(Vec::new())).unwrap(), Vec::<PathBuf>::new());
    assert_eq!(worker.next_dir(), Some(p("/r/a/y")));
    assert_eq!(worker.visit(Ok(vec![file("/r/a/y/h")])).unwrap(), vec![p("/r/a/y/h")]);
    assert!(!worker.is_done());
    assert_eq!(worker.next_dir(), Some(p("/r/b")));
    assert_eq!(worker.visit(Ok(Vec::new())).unwrap(), Vec::<PathBuf>::new());
    assert!(worker.is_done());
    assert_eq!(worker.next_dir(), None);
    assert_eq!(worker.next_dir(), None);
}

#[test]
fn empty_root_ends_at_once() {
    let mut worker = Visit::new(p("/empty"));
    assert!(!worker.is_done());
    assert_eq!(worker.next_dir(), Some(p("/empty")));
    assert!(worker.is_done());
    assert!(worker.visit(Ok(Vec::new())).unwrap().is_empty());
    assert!(worker.is_done());
    assert_eq!(worker.next_dir(), None);
}

#[test]
fn fan_out_plan_splits_the_listing_in_order() {
    let plan = visit_multithreaded(Ok(vec![
        dir("/r/b"),
        file("/r/2"),
        dir("/r/a"),
        file("/r/1"),
    ]))
    .unwrap();
    assert_eq!(plan.send, vec![p("/r/2"), p("/r/1")]);
    assert_eq!(plan.spawn, vec![p("/r/b"), p("/r/a")]);
    let none = visit_multithreaded(Ok(Vec::new())).unwrap();
    assert!(none.send.is_empty());
    assert!(none.spawn.is_empty());
}

#[test]
fn fan_out_reaches_what_the_single_worker_reaches() {
    let (mut fan, _) = produce_fan_out(&p("/root"));
    let mut single = produce(&p("/root"));
    fan.sort();
    single.sort();
    assert_eq!(fan, single);
}
