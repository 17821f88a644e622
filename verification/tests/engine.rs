use file_sync_rs::fs_tree::{DirEntry, EntryKind, FsNode};
use file_sync_rs::paths::SyncPath;
use file_sync_rs::sync::Syncer;

fn p(path: &str) -> SyncPath {
    SyncPath::new(
        path.split('/')
            .filter(|c| !c.is_empty())
            .map(|c| c.to_string())
            .collect(),
    )
}

fn entry(name: &str, node: FsNode) -> DirEntry {
    DirEntry {
        name: name.to_string(),
        node,
    }
}

#[test]
fn single_file_source_yields_one_job() {
    let sources = vec![p("/a/file1.txt")];
    let kinds = vec![EntryKind::File];
    let mut syncer = Syncer::new(sources, &kinds, p("/b")).unwrap();
    syncer.resolve(&vec![FsNode::File]);

    let (job, state) = syncer.next().expect("one job pending");
    assert_eq!(job.source, p("/a/file1.txt"));
    assert_eq!(job.target, p("/b/file1.txt"));
    assert_eq!(state.current_file(), &p("/a/file1.txt"));
    assert_eq!(state.total(), 1);
    assert_eq!(state.done(), 1);
    assert!(syncer.next().is_none());
}

#[test]
fn directory_jobs_come_before_their_descendants() {
    // /a is a directory holding x/y.txt
    let tree = FsNode::Dir(vec![entry(
        "x",
        FsNode::Dir(vec![entry("y.txt", FsNode::File)]),
    )]);
    let sources = vec![p("/a")];
    let kinds = vec![EntryKind::Directory];
    let mut syncer = Syncer::new(sources, &kinds, p("/b")).unwrap();
    syncer.resolve(&vec![tree]);

    let (first, _) = syncer.next().unwrap();
    assert_eq!(first.source, p("/a"));
    assert_eq!(first.target, p("/b/a"));
    let (second, _) = syncer.next().unwrap();
    assert_eq!(second.source, p("/a/x"));
    assert_eq!(second.target, p("/b/a/x"));
    let (third, _) = syncer.next().unwrap();
    assert_eq!(third.source, p("/a/x/y.txt"));
    assert_eq!(third.target, p("/b/a/x/y.txt"));
    assert!(syncer.next().is_none());
}

#[test]
fn done_increases_and_total_stays_constant() {
    let tree = FsNode::Dir(vec![
        entry("one.txt", FsNode::File),
        entry("two.txt", FsNode::File),
        entry("sub", FsNode::Dir(vec![entry("three.txt", FsNode::File)])),
    ]);
    let sources = vec![p("/a")];
    let kinds = vec![EntryKind::Directory];
    let mut syncer = Syncer::new(sources, &kinds, p("/b")).unwrap();
    syncer.resolve(&vec![tree]);

    let mut last_done = 0;
    let mut totals = Vec::new();
    let mut states = 0;
    while let Some((_, state)) = syncer.next() {
        assert!(state.done() > last_done, "done must strictly increase");
        last_done = state.done();
        totals.push(state.total());
        states += 1;
    }
    assert_eq!(states, 5); // /a, one.txt, two.txt, sub, three.txt
    assert!(totals.iter().all(|t| *t == 5), "total must stay constant");
    assert_eq!(last_done, 5, "the final state reports done == total");
}

#[test]
fn sibling_sources_resolve_in_input_order() {
    let sources = vec![p("/a/first.txt"), p("/c/second.txt")];
    let kinds = vec![EntryKind::File, EntryKind::File];
    let mut syncer = Syncer::new(sources, &kinds, p("/b")).unwrap();
    syncer.resolve(&vec![FsNode::File, FsNode::File]);

    let (first, _) = syncer.next().unwrap();
    assert_eq!(first.source, p("/a/first.txt"));
    assert_eq!(first.target, p("/b/first.txt"));
    let (second, _) = syncer.next().unwrap();
    assert_eq!(second.source, p("/c/second.txt"));
    assert_eq!(second.target, p("/b/second.txt"));
    assert!(syncer.next().is_none());
}

#[test]
fn empty_directory_yields_only_its_own_job() {
    let sources = vec![p("/a")];
    let kinds = vec![EntryKind::Directory];
    let mut syncer = Syncer::new(sources, &kinds, p("/b")).unwrap();
    syncer.resolve(&vec![FsNode::Dir(Vec::new())]);

    let (job, state) = syncer.next().unwrap();
    assert_eq!(job.source, p("/a"));
    assert_eq!(job.target, p("/b/a"));
    assert_eq!(state.total(), 1);
    assert!(syncer.next().is_none());
}

#[test]
fn no_sources_yield_no_jobs() {
    let mut syncer = Syncer::new(Vec::new(), &Vec::new(), p("/b")).unwrap();
    syncer.resolve(&Vec::new());
    assert!(syncer.next().is_none());
}
