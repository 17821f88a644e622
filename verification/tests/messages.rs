use file_sync_rs::lang::{
    app_update_finished_description, invalid_parameters_message, last_sync, set_target,
    source_block_label, source_does_not_exist_error, source_exists_error, source_in_target_error,
    sources_does_not_exist_error, sources_overlap_error, start_sync, target_does_not_exist_error,
    target_in_source_error, Lang,
};
use file_sync_rs::paths::SyncPath;
use file_sync_rs::sync::InvalidSyncerParameters;

fn p(path: &str) -> SyncPath {
    SyncPath::new(
        path.split('/')
            .filter(|c| !c.is_empty())
            .map(|c| c.to_string())
            .collect(),
    )
}

#[test]
fn language_from_setting_name() {
    assert_eq!(Lang::from("German"), Lang::German);
    assert_eq!(Lang::from("English"), Lang::English);
    assert_eq!(Lang::from("anything else"), Lang::English);
}

#[test]
fn language_names_round_trip() {
    assert_eq!(Lang::German.name(), "German");
    assert_eq!(Lang::English.name(), "English");
    assert_eq!(Lang::from(Lang::German.name().as_str()), Lang::German);
    assert_eq!(Lang::from(Lang::English.name().as_str()), Lang::English);
}

#[test]
fn plain_labels() {
    assert_eq!(start_sync(&Lang::German), "Synchronisierung Starten");
    assert_eq!(start_sync(&Lang::English), "Start Synchronisation");
    assert_eq!(source_block_label(&Lang::German), "Quellen");
    assert_eq!(source_block_label(&Lang::English), "Sources");
    assert_eq!(set_target(&Lang::German), "Ziel Setzen");
    assert_eq!(set_target(&Lang::English), "Set Target");
    assert_eq!(last_sync(&Lang::German), "Letzte Synchronisierung");
    assert_eq!(last_sync(&Lang::English), "Last Synchronisation");
}

#[test]
fn messages_without_paths() {
    assert_eq!(
        target_does_not_exist_error(&Lang::German),
        "Es ist kein Zielverzeichnis eingestellt."
    );
    assert_eq!(
        target_does_not_exist_error(&Lang::English),
        "No target directory is given."
    );
    assert_eq!(
        sources_does_not_exist_error(&Lang::German),
        "Es sind keine Verzeichnisse zum synchronisieren eingestellt."
    );
    assert_eq!(
        sources_does_not_exist_error(&Lang::English),
        "No source directories given."
    );
}

#[test]
fn messages_with_one_path() {
    assert_eq!(
        source_exists_error(&Lang::English, p("/a/b")),
        "Source /a/b already exists."
    );
    assert_eq!(
        source_exists_error(&Lang::German, p("/a/b")),
        "Quelle /a/b existiert bereits."
    );
    assert_eq!(
        source_does_not_exist_error(&Lang::English, &p("/gone")),
        "Source /gone does not exist."
    );
    assert_eq!(
        source_in_target_error(&Lang::English, &p("/b/sub")),
        "The source /b/sub is located inside the target directory"
    );
    assert_eq!(
        target_in_source_error(&Lang::English, &p("/a")),
        "The target directory located inside in this source directory: /a ."
    );
}

#[test]
fn overlap_message_shows_both_paths() {
    assert_eq!(
        sources_overlap_error(&Lang::English, &p("/a"), &p("/a/b")),
        "Paths overlap:\n/a\n/a/b"
    );
    assert_eq!(
        sources_overlap_error(&Lang::German, &p("/a"), &p("/a/b")),
        "Pfade überlappen:\n/a\n/a/b"
    );
}

#[test]
fn rejection_messages_follow_the_error() {
    let e = InvalidSyncerParameters::SourceDoesNotExist(p("/gone"));
    assert_eq!(
        invalid_parameters_message(&Lang::English, &e),
        "Source /gone does not exist."
    );
    let e = InvalidSyncerParameters::SourceInTarget(p("/b/sub"));
    assert_eq!(
        invalid_parameters_message(&Lang::English, &e),
        "The source /b/sub is located inside the target directory"
    );
    let e = InvalidSyncerParameters::TargetInSource(p("/a"));
    assert_eq!(
        invalid_parameters_message(&Lang::German, &e),
        "Das Zielverzeichnis befindet sich in diesem Quellverzeichnis: /a ."
    );
}

#[test]
fn update_description_mentions_version() {
    assert_eq!(
        app_update_finished_description(&Lang::English, "1.2.3", false),
        "Update to version 1.2.3 finished. Application can be restarted."
    );
    assert_eq!(
        app_update_finished_description(&Lang::German, "1.2.3", false),
        "Update auf Version 1.2.3 beendet. Das Programm kann neugestartet werden."
    );
    assert_eq!(
        app_update_finished_description(&Lang::English, "1.2.3", true),
        "The application is already up to date."
    );
    assert_eq!(
        app_update_finished_description(&Lang::German, "1.2.3", true),
        "Das Programm ist bereits auf dem aktuellsten Stand."
    );
}
