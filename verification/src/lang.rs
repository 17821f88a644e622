//! The two display languages and every message the application shows, each
//! with its exact wording pinned down.

use vstd::prelude::*;
use vstd::string::StringExecFns;
use crate::paths::{path_display, SyncPath};
use crate::sync::InvalidSyncerParameters;

verus! {

/// A display language.
#[derive(Debug, Clone, Copy, PartialEq, Eq, Structural)]
pub enum Lang {
    German,
    English,
}

impl From<&str> for Lang {
    /// The language a stored setting names; anything but `German` means
    /// English.
    fn from(value: &str) -> (r: Self) {
        let v = value.to_owned();
        let german = String::from_str("German");
        if v.eq(&german) {
            Lang::German
        } else {
            Lang::English
        }
    }
}

impl vstd::std_specs::convert::FromSpecImpl<&str> for Lang {
    open spec fn obeys_from_spec() -> bool {
        true
    }

    open spec fn from_spec(value: &str) -> Lang {
        if value@ == "German"@ {
            Lang::German
        } else {
            Lang::English
        }
    }
}

impl Lang {
    /// The name under which this language is stored.
    pub fn name(&self) -> (r: String)
        ensures
            r@ == (if self is German {
                "German"@
            } else {
                "English"@
            }),
    {
        match self {
            Lang::German => String::from_str("German"),
            Lang::English => String::from_str("English"),
        }
    }
}

/// A literal, a path's display form, then another literal.
fn message_around_path(prefix: &str, path: &SyncPath, suffix: &str) -> (r: String)
    ensures
        r@ == prefix@ + path_display(path@) + suffix@,
{
    let mut s = String::from_str(prefix);
    s.append(path.to_display_string().as_str());
    s.append(suffix);
    s
}

/// The label of the button that starts a run.
pub fn start_sync(lang: &Lang) -> (r: &'static str)
    ensures
        r@ == (if lang is German {
            "Synchronisierung Starten"@
        } else {
            "Start Synchronisation"@
        }),
{
    match lang {
        Lang::German => "Synchronisierung Starten",
        Lang::English => "Start Synchronisation",
    }
}

/// The heading of the source list.
pub fn source_block_label(lang: &Lang) -> (r: &'static str)
    ensures
        r@ == (if lang is German {
            "Quellen"@
        } else {
            "Sources"@
        }),
{
    match lang {
        Lang::German => "Quellen",
        Lang::English => "Sources",
    }
}

/// The label of the button that picks the target directory.
pub fn set_target(lang: &Lang) -> (r: &'static str)
    ensures
        r@ == (if lang is German {
            "Ziel Setzen"@
        } else {
            "Set Target"@
        }),
{
    match lang {
        Lang::German => "Ziel Setzen",
        Lang::English => "Set Target",
    }
}

/// The complaint that a source was added twice.
pub fn source_exists_error(lang: &Lang, path: SyncPath) -> (r: String)
    ensures
        r@ == (if lang is German {
            "Quelle "@ + path_display(path@) + " existiert bereits."@
        } else {
            "Source "@ + path_display(path@) + " already exists."@
        }),
{
    match lang {
        Lang::German => message_around_path("Quelle ", &path, " existiert bereits."),
        Lang::English => message_around_path("Source ", &path, " already exists."),
    }
}

/// The complaint that one path to add lies inside another already kept.
pub fn sources_overlap_error(lang: &Lang, path1: &SyncPath, path2: &SyncPath) -> (r: String)
    ensures
        r@ == (if lang is German {
            "Pfade überlappen:\n"@ + path_display(path1@) + "\n"@ + path_display(path2@)
        } else {
            "Paths overlap:\n"@ + path_display(path1@) + "\n"@ + path_display(path2@)
        }),
{
    let mut s = match lang {
        Lang::German => String::from_str("Pfade überlappen:\n"),
        Lang::English => String::from_str("Paths overlap:\n"),
    };
    s.append(path1.to_display_string().as_str());
    s.append("\n");
    s.append(path2.to_display_string().as_str());
    s
}

/// The complaint that no target directory is set.
pub fn target_does_not_exist_error(lang: &Lang) -> (r: String)
    ensures
        r@ == (if lang is German {
            "Es ist kein Zielverzeichnis eingestellt."@
        } else {
            "No target directory is given."@
        }),
{
    match lang {
        Lang::German => String::from_str("Es ist kein Zielverzeichnis eingestellt."),
        Lang::English => String::from_str("No target directory is given."),
    }
}

/// The complaint that the source list is empty.
pub fn sources_does_not_exist_error(lang: &Lang) -> (r: String)
    ensures
        r@ == (if lang is German {
            "Es sind keine Verzeichnisse zum synchronisieren eingestellt."@
        } else {
            "No source directories given."@
        }),
{
    match lang {
        Lang::German => String::from_str(
            "Es sind keine Verzeichnisse zum synchronisieren eingestellt.",
        ),
        Lang::English => String::from_str("No source directories given."),
    }
}

/// The complaint that a source path does not exist on disk.
pub fn source_does_not_exist_error(lang: &Lang, source: &SyncPath) -> (r: String)
    ensures
        r@ == (if lang is German {
            "Die Quelle "@ + path_display(source@) + " existiert nicht."@
        } else {
            "Source "@ + path_display(source@) + " does not exist."@
        }),
{
    match lang {
        Lang::German => message_around_path("Die Quelle ", source, " existiert nicht."),
        Lang::English => message_around_path("Source ", source, " does not exist."),
    }
}

/// The complaint that a source lies inside the target directory.
pub fn source_in_target_error(lang: &Lang, source: &SyncPath) -> (r: String)
    ensures
        r@ == (if lang is German {
            "Die Quelle "@ + path_display(source@) + " befindet sich im Zielverzeichnis"@
        } else {
            "The source "@ + path_display(source@)
                + " is located inside the target directory"@
        }),
{
    match lang {
        Lang::German => message_around_path(
            "Die Quelle ",
            source,
            " befindet sich im Zielverzeichnis",
        ),
        Lang::English => message_around_path(
            "The source ",
            source,
            " is located inside the target directory",
        ),
    }
}

/// The complaint that the target directory lies inside a source.
pub fn target_in_source_error(lang: &Lang, source: &SyncPath) -> (r: String)
    ensures
        r@ == (if lang is German {
            "Das Zielverzeichnis befindet sich in diesem Quellverzeichnis: "@ + path_display(
                source@,
            ) + " ."@
        } else {
            "The target directory located inside in this source directory: "@ + path_display(
                source@,
            ) + " ."@
        }),
{
    match lang {
        Lang::German => message_around_path(
            "Das Zielverzeichnis befindet sich in diesem Quellverzeichnis: ",
            source,
            " .",
        ),
        Lang::English => message_around_path(
            "The target directory located inside in this source directory: ",
            source,
            " .",
        ),
    }
}

/// The message naming the check a rejected source failed, in the rejection's
/// own words.
pub fn invalid_parameters_message(lang: &Lang, error: &InvalidSyncerParameters) -> (r: String)
    ensures
        r@ == (match error {
            InvalidSyncerParameters::SourceDoesNotExist(p) => (if lang is German {
                "Die Quelle "@ + path_display(p@) + " existiert nicht."@
            } else {
                "Source "@ + path_display(p@) + " does not exist."@
            }),
            InvalidSyncerParameters::SourceInTarget(p) => (if lang is German {
                "Die Quelle "@ + path_display(p@) + " befindet sich im Zielverzeichnis"@
            } else {
                "The source "@ + path_display(p@)
                    + " is located inside the target directory"@
            }),
            InvalidSyncerParameters::TargetInSource(p) => (if lang is German {
                "Das Zielverzeichnis befindet sich in diesem Quellverzeichnis: "@ + path_display(
                    p@,
                ) + " ."@
            } else {
                "The target directory located inside in this source directory: "@ + path_display(
                    p@,
                ) + " ."@
            }),
        }),
{
    match error {
        InvalidSyncerParameters::SourceDoesNotExist(p) => source_does_not_exist_error(lang, p),
        InvalidSyncerParameters::SourceInTarget(p) => source_in_target_error(lang, p),
        InvalidSyncerParameters::TargetInSource(p) => target_in_source_error(lang, p),
    }
}

/// The label of the last-sync line.
pub fn last_sync(lang: &Lang) -> (r: String)
    ensures
        r@ == (if lang is German {
            "Letzte Synchronisierung"@
        } else {
            "Last Synchronisation"@
        }),
{
    match lang {
        Lang::German => String::from_str("Letzte Synchronisierung"),
        Lang::English => String::from_str("Last Synchronisation"),
    }
}

/// What to report once an application update finished, or when none was
/// needed.
pub fn app_update_finished_description(lang: &Lang, version: &str, already_up_to_date: bool) -> (r:
    String)
    ensures
        r@ == (if already_up_to_date {
            if lang is German {
                "Das Programm ist bereits auf dem aktuellsten Stand."@
            } else {
                "The application is already up to date."@
            }
        } else {
            if lang is German {
                "Update auf Version "@ + version@
                    + " beendet. Das Programm kann neugestartet werden."@
            } else {
                "Update to version "@ + version@ + " finished. Application can be restarted."@
            }
        }),
{
    if already_up_to_date {
        match lang {
            Lang::German => String::from_str(
                "Das Programm ist bereits auf dem aktuellsten Stand.",
            ),
            Lang::English => String::from_str("The application is already up to date."),
        }
    } else {
        let mut s = match lang {
            Lang::German => String::from_str("Update auf Version "),
            Lang::English => String::from_str("Update to version "),
        };
        s.append(version);
        match lang {
            Lang::German => s.append(" beendet. Das Programm kann neugestartet werden."),
            Lang::English => s.append(" finished. Application can be restarted."),
        }
        s
    }
}

} // verus!
