use file_sync_rs::fs_tree::{DirEntry, EntryKind, FsNode};
use file_sync_rs::paths::SyncPath;
use file_sync_rs::syncing::Syncer;

fn p(path: &str) -> SyncPath {
    SyncPath::new(
        path.split('/')
            .filter(|c| !c.is_empty())
            .map(|c| c.to_string())
            .collect(),
    )
}

fn entry(name: &str, node: FsNode) -> DirEntry {
    DirEntry {
        name: name.to_string(),
        node,
    }
}

#[test]
fn a_batch_never_holds_a_job_below_another() {
    // deeply nested tree: every job is an ancestor of the next
    let tree = FsNode::Dir(vec![entry(
        "x",
        FsNode::Dir(vec![entry("y", FsNode::Dir(vec![entry("z.txt", FsNode::File)]))]),
    )]);
    let mut syncer = Syncer::new(vec![p("/a")], &vec![EntryKind::Directory], p("/b")).unwrap();
    syncer.resolve(&vec![tree]);

    let mut batches = 0;
    while let Some(batch) = syncer.next_batch(10) {
        for i in 0..batch.len() {
            for j in 0..batch.len() {
                if i != j {
                    assert!(
                        !batch[i].source.starts_with(&batch[j].source),
                        "two jobs of one batch lie on one path"
                    );
                }
            }
        }
        for job in batch {
            syncer.record_done(job);
        }
        batches += 1;
    }
    // each of /a, /a/x, /a/x/y, /a/x/y/z.txt must wait for its parent
    assert_eq!(batches, 4);
}

#[test]
fn independent_files_share_one_batch() {
    let tree = FsNode::Dir(vec![
        entry("one.txt", FsNode::File),
        entry("two.txt", FsNode::File),
        entry("three.txt", FsNode::File),
    ]);
    let mut syncer = Syncer::new(vec![p("/a")], &vec![EntryKind::Directory], p("/b")).unwrap();
    syncer.resolve(&vec![tree]);

    let first = syncer.next_batch(10).unwrap();
    assert_eq!(first.len(), 1, "the directory goes alone");
    assert_eq!(first[0].source, p("/a"));
    for job in first {
        syncer.record_done(job);
    }

    let second = syncer.next_batch(10).unwrap();
    assert_eq!(second.len(), 3, "the three files are independent");
    assert_eq!(second[0].source, p("/a/one.txt"));
    assert_eq!(second[1].source, p("/a/two.txt"));
    assert_eq!(second[2].source, p("/a/three.txt"));
    for job in second {
        syncer.record_done(job);
    }
    assert!(syncer.next_batch(10).is_none());
}

#[test]
fn batch_width_is_respected() {
    let tree = FsNode::Dir(vec![
        entry("one.txt", FsNode::File),
        entry("two.txt", FsNode::File),
        entry("three.txt", FsNode::File),
    ]);
    let mut syncer = Syncer::new(vec![p("/a")], &vec![EntryKind::Directory], p("/b")).unwrap();
    syncer.resolve(&vec![tree]);

    let first = syncer.next_batch(1).unwrap();
    assert_eq!(first.len(), 1);
    for job in first {
        syncer.record_done(job);
    }
    let second = syncer.next_batch(2).unwrap();
    assert_eq!(second.len(), 2);
    for job in second {
        syncer.record_done(job);
    }
    let third = syncer.next_batch(2).unwrap();
    assert_eq!(third.len(), 1);
    for job in third {
        syncer.record_done(job);
    }
    assert!(syncer.next_batch(2).is_none());
}

#[test]
fn progress_reports_batch_and_counts() {
    let tree = FsNode::Dir(vec![entry("one.txt", FsNode::File)]);
    let mut syncer = Syncer::new(vec![p("/a")], &vec![EntryKind::Directory], p("/b")).unwrap();
    syncer.resolve(&vec![tree]);

    let mut seen_done = 0;
    let mut totals = Vec::new();
    while let Some(batch) = syncer.next_batch(10) {
        let mut current = Vec::new();
        for job in batch {
            current.push(job.source.clone());
            syncer.record_done(job);
        }
        let state = syncer.progress(current);
        assert!(state.done() > seen_done);
        seen_done = state.done();
        totals.push(state.total());
    }
    assert!(totals.iter().all(|t| *t == 2));
    assert_eq!(seen_done, 2);
}

#[test]
fn last_sync_record_lists_sources_and_target() {
    let syncer = Syncer::new(
        vec![p("/a/file1.txt")],
        &vec![EntryKind::File],
        p("/b"),
    )
    .unwrap();
    let record = syncer.last_sync_record_at(1700000000);
    assert_eq!(record.timestamp(), 1700000000);
    assert_eq!(record.sources(), &vec!["/a/file1.txt".to_string()]);
    assert_eq!(record.target(), &"/b".to_string());
}

#[test]
fn counts_track_pending_and_done() {
    let mut syncer = Syncer::new(
        vec![p("/a/file1.txt")],
        &vec![EntryKind::File],
        p("/b"),
    )
    .unwrap();
    syncer.resolve(&vec![FsNode::File]);
    assert_eq!(syncer.pending_count(), 1);
    assert_eq!(syncer.done_count(), 0);
    let batch = syncer.next_batch(10).unwrap();
    assert_eq!(syncer.pending_count(), 0);
    for job in batch {
        syncer.record_done(job);
    }
    assert_eq!(syncer.done_count(), 1);
}
