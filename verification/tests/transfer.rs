use visionary::transfer::{
    entry_fate, preserve_workspace_romfs, previous_name, staging_name, start_replacement,
    workspace_romfs_has_files, EntryFate, EntryKind, FileFacts, OverlayEntry, OverlayWalk,
    ReplaceFailure, ReplacePhase, ReplaceRefusal, ReplaceStart, Replacement,
};
use visionary::workspace::workspace_romfs;

const FILE: EntryKind = EntryKind {
    is_symlink: false,
    is_dir: false,
    is_file: true,
};
const FOLDER: EntryKind = EntryKind {
    is_symlink: false,
    is_dir: true,
    is_file: false,
};
const LINK: EntryKind = EntryKind {
    is_symlink: true,
    is_dir: false,
    is_file: true,
};

/// Walks through an overlay given as a list of paths, where folders end in a slash and links in
/// an `@`. Says how many files were copied, which were skipped, and which were copied.
fn merge(overlay: &[&str], taken: &[&str]) -> (usize, Vec<String>, Vec<String>) {
    let mut walk = OverlayWalk::new();
    let mut copied = Vec::new();
    while let Some(folder) = walk.next_folder() {
        for entry in overlay {
            let (path, kind) = match entry.strip_suffix('/') {
                Some(path) => (path, FOLDER),
                None => match entry.strip_suffix('@') {
                    Some(path) => (path, LINK),
                    None => (*entry, FILE),
                },
            };
            let parent = match path.rsplit_once('/') {
                Some((parent, _)) => parent,
                None => "",
            };
            if parent != folder {
                continue;
            }
            if walk.visit(path, kind, taken.contains(&path)) == EntryFate::Copy {
                copied.push(path.to_string());
                walk.file_copied();
            }
        }
    }
    let (count, skipped) = walk.finish();
    (count, skipped, copied)
}

#[test]
fn romfs_overlay_merges_manual_files_and_reports_generated_conflicts() {
    let (copied, skipped, files) = merge(
        &[
            "fighter/",
            "fighter/mario/",
            "fighter/mario/model/",
            "fighter/mario/model/model.numdlb",
            "fighter/mario/motion/",
            "fighter/mario/motion/attack.nuanmb",
            "fighter/common/",
            "fighter/common/fighter_param.prc",
        ],
        &["fighter/common/fighter_param.prc"],
    );
    assert_eq!(copied, 2, "model + animation ship verbatim");
    assert_eq!(skipped, vec!["fighter/common/fighter_param.prc"]);
    assert!(files.contains(&"fighter/mario/model/model.numdlb".to_string()));
    assert!(files.contains(&"fighter/mario/motion/attack.nuanmb".to_string()));
}

#[test]
fn overlay_only_workspace_is_exportable_without_serialized_edits() {
    let mut walk = OverlayWalk::new();
    walk.next_folder();
    let top = vec![OverlayEntry {
        path: "fighter".to_string(),
        kind: FOLDER,
    }];
    assert!(!workspace_romfs_has_files(&mut walk, &top));
    assert_eq!(walk.next_folder().as_deref(), Some("fighter"));
    let inner = vec![OverlayEntry {
        path: "fighter/swing.prc".to_string(),
        kind: FILE,
    }];
    assert!(workspace_romfs_has_files(&mut walk, &inner));

    let (copied, conflicts, _) = merge(
        &["c07/", "c07/model.numdlb", "c07/attack11.nuanmb", "c07/swing.prc"],
        &[],
    );
    assert_eq!(copied, 3);
    assert!(conflicts.is_empty());
}

#[test]
fn romfs_overlay_skips_symlinked_files() {
    let mut walk = OverlayWalk::new();
    walk.next_folder();
    let entries = vec![OverlayEntry {
        path: "model.numdlb".to_string(),
        kind: LINK,
    }];
    assert!(!workspace_romfs_has_files(&mut walk, &entries));
    assert_eq!(walk.next_folder(), None);
    let (copied, conflicts, files) = merge(&["model.numdlb@"], &[]);
    assert_eq!((copied, conflicts), (0, Vec::new()));
    assert!(files.is_empty());
}

#[test]
fn save_as_preserves_the_romfs_overlay_and_keeps_destination_conflicts() {
    let (from, to) = preserve_workspace_romfs("/d/old", "/d/new", None, None).unwrap();
    assert_eq!(from, workspace_romfs("/d/old"));
    assert_eq!(to, workspace_romfs("/d/new"));
    let (copied, skipped, files) = merge(
        &["kirby/", "kirby/run.nuanmb", "kirby/swing.prc"],
        &["kirby/swing.prc"],
    );
    assert_eq!(copied, 1);
    assert_eq!(skipped, vec!["kirby/swing.prc"]);
    assert_eq!(files, vec!["kirby/run.nuanmb"]);
}

#[test]
fn a_project_that_stays_where_it_is_moves_nothing() {
    assert!(preserve_workspace_romfs("/d/a", "/d//a/", None, None).is_none());
    assert!(preserve_workspace_romfs("/d/a", "/link", Some("/d/a"), Some("/d/a")).is_none());
    assert!(preserve_workspace_romfs("/d/a", "/d/b", Some("/d/a"), Some("/d/b")).is_some());
    assert!(preserve_workspace_romfs("/d/a", "/d/b", Some("/d/a"), None).is_some());
}

#[test]
fn conflicts_are_listed_in_order_and_once() {
    let (_, skipped, _) = merge(&["b", "a", "b"], &["a", "b"]);
    assert_eq!(skipped, vec!["a", "b"]);
}

#[test]
fn entries_that_are_nothing_in_particular_are_left_out() {
    let odd = EntryKind {
        is_symlink: false,
        is_dir: false,
        is_file: false,
    };
    assert_eq!(entry_fate(odd, false), EntryFate::Skip);
    assert_eq!(entry_fate(FILE, true), EntryFate::Conflict);
    assert_eq!(entry_fate(FOLDER, true), EntryFate::Descend);
}

/// A disk with a source, a destination, and the two files beside it.
struct Disk {
    destination: Option<String>,
    staging: Option<String>,
    previous: Option<String>,
}

/// Replaces the destination with `source` on a disk where the phases in `broken` fail.
fn replace(disk: &mut Disk, source: &str, broken: &[ReplacePhase]) -> ReplacePhase {
    let mut work = Replacement::new();
    loop {
        let phase = work.phase;
        let fails = broken.contains(&phase);
        let ok = match phase {
            ReplacePhase::ProbeStaging => disk.staging.is_some(),
            ReplacePhase::ProbeDestination => disk.destination.is_some(),
            ReplacePhase::ProbePrevious => disk.previous.is_some(),
            ReplacePhase::Done | ReplacePhase::Failed(_) => return phase,
            _ if fails => false,
            ReplacePhase::RemoveStaging | ReplacePhase::DropStaging(_) => {
                disk.staging.take().is_some()
            }
            ReplacePhase::CopySource => {
                disk.staging = Some(source.to_string());
                true
            }
            ReplacePhase::RemovePrevious | ReplacePhase::DropPrevious => {
                disk.previous.take().is_some()
            }
            ReplacePhase::MoveAside => {
                disk.previous = disk.destination.take();
                true
            }
            ReplacePhase::Install | ReplacePhase::InstallFresh => {
                disk.destination = disk.staging.take();
                true
            }
            ReplacePhase::RestorePrevious => {
                disk.destination = disk.previous.take();
                true
            }
        };
        work.advance(ok);
    }
}

#[test]
fn repeated_import_replaces_the_file_without_leaving_staging_debris() {
    let mut disk = Disk {
        destination: None,
        staging: None,
        previous: None,
    };
    assert_eq!(replace(&mut disk, "first", &[]), ReplacePhase::Done);
    assert_eq!(disk.destination.as_deref(), Some("first"));
    assert_eq!(replace(&mut disk, "second, longer", &[]), ReplacePhase::Done);
    assert_eq!(disk.destination.as_deref(), Some("second, longer"));
    assert_eq!(staging_name("model.numdlb"), ".model.numdlb.visionary-next");
    assert_eq!(previous_name("model.numdlb"), ".model.numdlb.visionary-previous");
    assert!(disk.staging.is_none());
    assert!(disk.previous.is_none());
}

#[test]
fn a_failed_replacement_leaves_the_destination_as_it_was() {
    for (phase, failure) in [
        (ReplacePhase::CopySource, ReplaceFailure::Copying),
        (ReplacePhase::MoveAside, ReplaceFailure::MovingAside),
        (ReplacePhase::Install, ReplaceFailure::InstallingReplacement),
        (ReplacePhase::RemoveStaging, ReplaceFailure::RemovingStaleStaging),
        (ReplacePhase::RemovePrevious, ReplaceFailure::RemovingStaleBackup),
    ] {
        let mut disk = Disk {
            destination: Some("old".to_string()),
            staging: Some("stale".to_string()),
            previous: Some("stale".to_string()),
        };
        assert_eq!(
            replace(&mut disk, "new", &[phase]),
            ReplacePhase::Failed(failure)
        );
        assert_eq!(disk.destination.as_deref(), Some("old"), "{phase:?}");
    }
    let mut disk = Disk {
        destination: None,
        staging: None,
        previous: None,
    };
    assert_eq!(
        replace(&mut disk, "new", &[ReplacePhase::InstallFresh]),
        ReplacePhase::Failed(ReplaceFailure::Installing)
    );
    assert_eq!(disk.destination, None);
    assert_eq!(disk.staging, None);
}

#[test]
fn only_regular_files_are_replaced() {
    let plain = FileFacts {
        is_file: true,
        is_symlink: false,
        len: 3,
    };
    let linked = FileFacts {
        is_file: true,
        is_symlink: true,
        len: 3,
    };
    let folder = FileFacts {
        is_file: false,
        is_symlink: false,
        len: 0,
    };
    assert_eq!(start_replacement(plain, None, false), Ok(ReplaceStart::Replace));
    assert_eq!(start_replacement(plain, Some(plain), true), Ok(ReplaceStart::AlreadyThere));
    assert_eq!(start_replacement(linked, None, false), Err(ReplaceRefusal::SourceNotRegular));
    assert_eq!(start_replacement(folder, None, false), Err(ReplaceRefusal::SourceNotRegular));
    assert_eq!(
        start_replacement(plain, Some(linked), false),
        Err(ReplaceRefusal::DestinationNotRegular)
    );
    assert_eq!(
        start_replacement(plain, Some(folder), false),
        Err(ReplaceRefusal::DestinationNotRegular)
    );
}

#[test]
fn a_second_merge_copies_nothing_and_lists_every_file() {
    let overlay = ["a/", "a/b/", "a/b/x.bin", "a/y.bin", "a/link@", "z.bin"];
    let (count, skipped, copied) = merge(&overlay, &["a/y.bin", "elsewhere"]);
    assert_eq!(count, 2);
    assert_eq!(skipped, vec!["a/y.bin"]);
    let mut taken = vec!["a/y.bin", "elsewhere"];
    taken.extend(copied.iter().map(String::as_str));
    let (again, listed, none) = merge(&overlay, &taken);
    assert_eq!(again, 0);
    assert!(none.is_empty());
    assert_eq!(listed, vec!["a/b/x.bin", "a/y.bin", "z.bin"]);
    assert_eq!(listed.len(), count + skipped.len());
}

#[test]
fn a_search_for_files_stops_at_the_first_one() {
    let entry = |path: &str, kind| OverlayEntry { path: path.to_string(), kind };
    let mut walk = OverlayWalk::new();
    assert_eq!(walk.next_folder().as_deref(), Some(""));
    let entries = vec![entry("a", FOLDER), entry("f", FILE), entry("b", FOLDER)];
    assert!(workspace_romfs_has_files(&mut walk, &entries));
    assert_eq!(walk.next_folder().as_deref(), Some("a"));
    assert_eq!(walk.next_folder(), None);
}
