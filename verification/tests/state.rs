use std::collections::BTreeMap;

use gr3sync::procedure::Step;
use gr3sync::state::{already_have, Entry, SaveWork, Saving, LEDGER_FILENAME, LEDGER_VERSION};
use gr3sync::{Error, Ledger, Result};

const ROOT: &str = "/photos";

/// A disk on which ledgers are kept.
type Disk = BTreeMap<String, Vec<(String, u64, Option<String>)>>;

fn save(ledger: &Ledger, disk: &mut Disk, failing: Option<fn(&SaveWork) -> bool>) -> Result<()> {
    let mut state = Saving::Folder;
    let mut open = String::new();
    loop {
        let work = ledger.save(&state);
        let failure = if failing.is_some_and(|fails| fails(&work)) {
            Some("disk trouble".to_string())
        } else {
            None
        };
        if failure.is_none() {
            match work {
                SaveWork::CreateFolder(_) | SaveWork::Sync => {}
                SaveWork::CreateFile(path) => {
                    disk.insert(path.clone(), Vec::new());
                    open = path;
                }
                SaveWork::Write => {
                    let rows = ledger
                        .entries()
                        .into_iter()
                        .map(|(key, entry)| (key, entry.size, entry.camera))
                        .collect();
                    disk.insert(open.clone(), rows);
                }
                SaveWork::Rename { from, to } => {
                    let rows = disk.remove(&from).unwrap();
                    disk.insert(to, rows);
                }
                SaveWork::Remove(path) => {
                    disk.remove(&path);
                }
            }
        }
        match ledger.saved(state, failure) {
            Step::More(next) => state = next,
            Step::Done(result) => return result,
        }
    }
}

fn load(disk: &Disk) -> Ledger {
    let entries = disk.get(&Ledger::path_in(ROOT)).map(|rows| {
        rows.iter()
            .map(|(key, size, camera)| {
                (
                    key.clone(),
                    Entry {
                        size: *size,
                        camera: camera.clone(),
                    },
                )
            })
            .collect()
    });
    Ledger::load(ROOT, entries)
}

#[test]
fn ledger_round_trips() {
    let mut disk = Disk::new();
    let mut ledger = load(&disk);
    ledger.record("100RICOH/a.JPG", 1234, Some("RICOH GR III".into()));
    save(&ledger, &mut disk, None).unwrap();

    let reloaded = load(&disk);
    assert!(reloaded.contains("100RICOH/a.JPG"));
    assert_eq!(reloaded.get("100RICOH/a.JPG").unwrap().size, 1234);
    assert_eq!(
        reloaded.get("100RICOH/a.JPG").unwrap().camera.as_deref(),
        Some("RICOH GR III")
    );
}

#[test]
fn a_corrupt_ledger_does_not_block_a_sync() {
    let mut disk = Disk::new();
    // What cannot be read has no entries.
    let mut ledger = Ledger::load(ROOT, None);
    assert!(ledger.is_empty());
    ledger.record("100RICOH/a.JPG", 1, None);
    save(&ledger, &mut disk, None).unwrap();
    assert!(load(&disk).contains("100RICOH/a.JPG"));
}

#[test]
fn a_file_on_disk_counts_even_with_an_empty_ledger() {
    assert!(already_have(
        true,
        "100RICOH/a.JPG",
        &Ledger::load(ROOT, None)
    ));
}

#[test]
fn the_ledger_covers_a_file_moved_out_of_the_inbox() {
    // Importing into a photo manager must not cause a full re-download.
    let mut ledger = Ledger::load(ROOT, None);
    ledger.record("100RICOH/a.JPG", 10, None);
    assert!(already_have(false, "100RICOH/a.JPG", &ledger));
}

#[test]
fn an_unknown_key_is_not_claimed() {
    assert!(!already_have(
        false,
        "100RICOH/missing.JPG",
        &Ledger::load(ROOT, None)
    ));
}

#[test]
fn repeated_saves_leave_no_temp_files() {
    let mut disk = Disk::new();
    let mut ledger = load(&disk);
    for index in 0..5u64 {
        ledger.record(&format!("100RICOH/{index}.JPG"), index, None);
        save(&ledger, &mut disk, None).unwrap();
    }
    let names: Vec<&String> = disk.keys().collect();
    assert_eq!(names, vec![&format!("{ROOT}/{LEDGER_FILENAME}")]);
    assert_eq!(load(&disk).len(), 5);
}

#[test]
fn a_save_that_fails_keeps_the_ledger_that_was_there() {
    let mut disk = Disk::new();
    let mut ledger = load(&disk);
    ledger.record("a", 1, None);
    save(&ledger, &mut disk, None).unwrap();
    ledger.record("b", 2, None);
    let failures: [fn(&SaveWork) -> bool; 4] = [
        |work| matches!(work, SaveWork::CreateFolder(_)),
        |work| matches!(work, SaveWork::CreateFile(_)),
        |work| matches!(work, SaveWork::Write),
        |work| matches!(work, SaveWork::Rename { .. }),
    ];
    for fails in failures {
        let err = save(&ledger, &mut disk, Some(fails)).unwrap_err();
        assert!(matches!(err, Error::Io { .. }), "{err:?}");
        assert!(err.message().contains("disk trouble"), "{err:?}");
        let kept = load(&disk);
        assert!(kept.contains("a") && !kept.contains("b"));
    }
}

#[test]
fn entries_come_in_the_order_of_their_keys() {
    let mut ledger = Ledger::load(ROOT, None);
    ledger.record("b", 2, None);
    ledger.record("a", 1, None);
    ledger.record("b", 3, None);
    let entries = ledger.entries();
    let keys: Vec<&str> = entries.iter().map(|(key, _)| key.as_str()).collect();
    assert_eq!(keys, vec!["a", "b"]);
    assert_eq!(entries[1].1.size, 3);
    assert_eq!(ledger.path(), "/photos/.gr3sync-ledger.json");
    assert_eq!(LEDGER_VERSION, 1);
}
