use file_sync_rs::fs_tree::EntryKind;
use file_sync_rs::paths::SyncPath;
use file_sync_rs::sync::{valid_syncer_parameters, InvalidSyncerParameters, Syncer};

fn p(path: &str) -> SyncPath {
    SyncPath::new(
        path.split('/')
            .filter(|c| !c.is_empty())
            .map(|c| c.to_string())
            .collect(),
    )
}

#[test]
fn validate_accepts_independent_paths() {
    let sources = vec![p("/a/file1.txt"), p("/c")];
    let kinds = vec![EntryKind::File, EntryKind::Directory];
    assert!(valid_syncer_parameters(&sources, &kinds, &p("/b")).is_ok());
}

#[test]
fn validate_rejects_missing_source() {
    let sources = vec![p("/a/missing")];
    let kinds = vec![EntryKind::Missing];
    match valid_syncer_parameters(&sources, &kinds, &p("/b")) {
        Err(InvalidSyncerParameters::SourceDoesNotExist(path)) => {
            assert_eq!(path, p("/a/missing"));
        }
        _ => panic!("expected SourceDoesNotExist"),
    }
}

#[test]
fn validate_rejects_source_inside_target() {
    let sources = vec![p("/b/sub")];
    let kinds = vec![EntryKind::Directory];
    match valid_syncer_parameters(&sources, &kinds, &p("/b")) {
        Err(InvalidSyncerParameters::SourceInTarget(path)) => {
            assert_eq!(path, p("/b/sub"));
        }
        _ => panic!("expected SourceInTarget"),
    }
}

#[test]
fn validate_rejects_source_equal_to_target() {
    let sources = vec![p("/b")];
    let kinds = vec![EntryKind::Directory];
    match valid_syncer_parameters(&sources, &kinds, &p("/b")) {
        Err(InvalidSyncerParameters::SourceInTarget(path)) => {
            assert_eq!(path, p("/b"));
        }
        _ => panic!("expected SourceInTarget"),
    }
}

#[test]
fn validate_rejects_target_inside_source() {
    let sources = vec![p("/a")];
    let kinds = vec![EntryKind::Directory];
    match valid_syncer_parameters(&sources, &kinds, &p("/a/nested/target")) {
        Err(InvalidSyncerParameters::TargetInSource(path)) => {
            assert_eq!(path, p("/a"));
        }
        _ => panic!("expected TargetInSource"),
    }
}

#[test]
fn validate_reports_first_violation_in_input_order() {
    let sources = vec![p("/ok"), p("/b/inside"), p("/gone")];
    let kinds = vec![EntryKind::Directory, EntryKind::Directory, EntryKind::Missing];
    match valid_syncer_parameters(&sources, &kinds, &p("/b")) {
        Err(InvalidSyncerParameters::SourceInTarget(path)) => {
            assert_eq!(path, p("/b/inside"));
        }
        _ => panic!("expected the second source to be rejected first"),
    }
}

#[test]
fn new_syncer_rejects_bad_parameters() {
    let sources = vec![p("/b/sub")];
    let kinds = vec![EntryKind::Directory];
    match Syncer::new(sources, &kinds, p("/b")) {
        Err(InvalidSyncerParameters::SourceInTarget(path)) => {
            assert_eq!(path, p("/b/sub"));
        }
        _ => panic!("expected SourceInTarget"),
    }
}

#[test]
fn new_syncer_accepts_valid_parameters() {
    let sources = vec![p("/a/file1.txt")];
    let kinds = vec![EntryKind::File];
    assert!(Syncer::new(sources, &kinds, p("/b")).is_ok());
}
