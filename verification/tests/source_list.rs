use file_sync_rs::paths::SyncPath;
use file_sync_rs::sources::{add_source, SourceAddError};
use file_sync_rs::style::SvgStyleSheet;

fn p(path: &str) -> SyncPath {
    SyncPath::new(
        path.split('/')
            .filter(|c| !c.is_empty())
            .map(|c| c.to_string())
            .collect(),
    )
}

#[test]
fn fresh_path_is_accepted() {
    let existing = vec![p("/music"), p("/pictures")];
    assert!(add_source(&existing, &p("/videos")).is_ok());
}

#[test]
fn duplicate_path_is_rejected() {
    let existing = vec![p("/music"), p("/pictures")];
    assert!(matches!(
        add_source(&existing, &p("/pictures")),
        Err(SourceAddError::AlreadyPresent)
    ));
}

#[test]
fn path_below_a_kept_source_is_rejected() {
    let existing = vec![p("/music")];
    match add_source(&existing, &p("/music/rock")) {
        Err(SourceAddError::Overlapping(q)) => assert_eq!(q, p("/music")),
        _ => panic!("expected Overlapping"),
    }
}

#[test]
fn path_above_a_kept_source_is_rejected() {
    let existing = vec![p("/music/rock")];
    match add_source(&existing, &p("/music")) {
        Err(SourceAddError::Overlapping(q)) => assert_eq!(q, p("/music/rock")),
        _ => panic!("expected Overlapping"),
    }
}

#[test]
fn empty_list_accepts_anything() {
    assert!(add_source(&Vec::new(), &p("/music")).is_ok());
}

#[test]
fn path_prefix_relation() {
    assert!(p("/a/b/c").starts_with(&p("/a/b")));
    assert!(p("/a/b").starts_with(&p("/a/b")));
    assert!(!p("/a/b").starts_with(&p("/a/b/c")));
    assert!(!p("/a/bc").starts_with(&p("/a/b")));
}

#[test]
fn path_join_and_file_name() {
    let base = p("/a");
    let child = base.join(&"b.txt".to_string());
    assert_eq!(child, p("/a/b.txt"));
    assert_eq!(child.file_name(), Some(&"b.txt".to_string()));
    assert_eq!(SyncPath::new(Vec::new()).file_name(), None);
}

#[test]
fn path_display_form() {
    assert_eq!(p("/a/b.txt").to_display_string(), "/a/b.txt");
    assert_eq!(p("/a").to_display_string(), "/a");
    assert_eq!(SyncPath::new(Vec::new()).to_display_string(), "");
}

#[test]
fn svg_style_keeps_its_channels() {
    let style = SvgStyleSheet::new(183, 79, 80);
    assert_eq!(style.r, 183);
    assert_eq!(style.g, 79);
    assert_eq!(style.b, 80);
}
