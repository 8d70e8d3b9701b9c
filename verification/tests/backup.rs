//! Store Backups: names, retention, and when one is owed.

use tk_store::backup::{
    backup_dir, backup_name, file_stamp, is_backup_name, partial_name, prune, BackupError, BACKUPS_KEPT,
};
use tk_store::migrations::{
    apply_all, apply_one, migration, plan, ApplyError, ForeignKeys, Outcome, Schema, MAX_KNOWN_VERSION,
};

const NOW: &str = "2026-09-03T13:45:00.123Z";

fn outcomes() -> Vec<Outcome> {
    (0..MAX_KNOWN_VERSION)
        .map(|_| Outcome { script: Ok(()), dangling: None })
        .collect()
}

/// A schema at the given version.
fn schema_at(version: u32) -> Schema {
    let mut schema = Schema::new();
    for v in 1..=version {
        let outcome = Outcome { script: Ok(()), dangling: None };
        apply_one(&mut schema, &migration(v), "2026-01-01T00:00:00.000Z", &outcome).unwrap();
    }
    schema
}

/// Upgrade a store whose backup directory holds `files`, writing and pruning
/// backups as owed.
fn upgrade(schema: &mut Schema, files: &mut Vec<String>) {
    let recorded = schema.current_version();
    if plan(recorded).unwrap().backup {
        let name = backup_name(NOW, recorded);
        files.push(name.clone());
        let gone = prune(files, &name);
        files.retain(|file| !gone.contains(file));
    }
    apply_all(schema, NOW, Ok(()), &outcomes()).unwrap();
    files.sort();
}

/// `count` backups with ascending stamps, oldest first.
fn seed_backups(count: usize) -> Vec<String> {
    (0..count)
        .map(|n| format!("2026-08-{:02}T00-00-00.000Z-v004.db", n + 1))
        .collect()
}

/// The shapes a user actually leaves beside their store by hand.
const HAND_MADE: [&str; 4] = [
    "tk.db.bak",
    "ticket.db.bak",
    "tk.db.bak-before-prefix-20260521102714",
    "notes.txt",
];

#[test]
fn a_backwards_clock_cannot_prune_this_run_s_own_backup() {
    let mut schema = schema_at(4);
    let mut files: Vec<String> = (0..BACKUPS_KEPT + 2)
        .map(|n| format!("2027-08-{:02}T00-00-00.000Z-v004.db", n + 1))
        .collect();

    upgrade(&mut schema, &mut files);

    assert!(
        files.contains(&"2026-09-03T13-45-00.123Z-v004.db".to_owned()),
        "the fresh backup sorts oldest under a backwards clock and must still survive: {files:?}"
    );
    assert_eq!(files.len(), BACKUPS_KEPT, "retention is still bounded");
}

#[test]
fn creating_a_store_writes_no_backup() {
    let mut schema = Schema::new();
    let mut files = Vec::new();
    upgrade(&mut schema, &mut files);
    assert!(files.is_empty(), "a store being created has no earlier state to protect");
}

#[test]
fn a_current_store_writes_no_backup() {
    let mut schema = schema_at(MAX_KNOWN_VERSION);
    let mut files = Vec::new();
    upgrade(&mut schema, &mut files);
    assert!(files.is_empty(), "no migration ran, so there was nothing to back up before");
}

#[test]
fn an_in_memory_store_has_no_backup_directory() {
    assert!(backup_dir(Some("")).is_none());
    assert!(backup_dir(None).is_none());
}

#[test]
fn upgrading_a_populated_store_writes_one_backup() {
    let mut schema = schema_at(4);
    let mut files = Vec::new();
    upgrade(&mut schema, &mut files);
    assert_eq!(
        files,
        vec!["2026-09-03T13-45-00.123Z-v004.db"],
        "one backup per run, named for the version it holds"
    );
}

#[test]
fn an_upgrade_with_no_rebuild_pending_is_still_backed_up() {
    let mut schema = schema_at(11);
    assert!((12..=MAX_KNOWN_VERSION).all(|v| migration(v).foreign_keys == ForeignKeys::On));
    let mut files = Vec::new();
    upgrade(&mut schema, &mut files);
    assert_eq!(files, vec!["2026-09-03T13-45-00.123Z-v011.db"]);
}

#[test]
fn a_backup_that_cannot_be_written_refuses_the_migration() {
    let mut schema = schema_at(4);
    let refused = BackupError {
        dir: "/repo/.git/tk/backups".to_owned(),
        source: "not a directory".to_owned(),
    };
    assert_eq!(refused.message(), "/repo/.git/tk/backups: not a directory");
    let err = apply_all(&mut schema, NOW, Err(refused), &outcomes())
        .expect_err("the migration must be refused");
    assert!(matches!(err, ApplyError::Backup(_)), "expected a backup failure, got {err:?}");
    assert_eq!(schema.current_version(), 4, "a refused upgrade leaves the schema untouched");
}

#[test]
fn pruning_keeps_only_the_newest_backups() {
    let mut schema = schema_at(4);
    let seeded = seed_backups(12);
    let mut files = seeded.clone();

    upgrade(&mut schema, &mut files);

    assert_eq!(files.len(), BACKUPS_KEPT, "retention is bounded at BACKUPS_KEPT");
    assert!(files.contains(&"2026-09-03T13-45-00.123Z-v004.db".to_owned()));
    assert!(
        !files.contains(&seeded[0]) && !files.contains(&seeded[1]),
        "the two oldest go first: the stamp leads the name, so sorting sorts by age"
    );
    assert!(files.contains(&seeded[11]), "the newest seeded backup stays");
}

#[test]
fn pruning_leaves_hand_made_copies_alone() {
    let mut schema = schema_at(4);
    let mut files = seed_backups(12);
    for stray in HAND_MADE {
        files.push(stray.to_owned());
    }

    upgrade(&mut schema, &mut files);

    for stray in HAND_MADE {
        assert!(files.contains(&stray.to_owned()), "{stray} is gone");
    }
}

#[test]
fn a_run_under_the_limit_prunes_nothing() {
    let mut schema = schema_at(4);
    let mut files = seed_backups(BACKUPS_KEPT - 1);
    upgrade(&mut schema, &mut files);
    assert_eq!(
        files.len(),
        BACKUPS_KEPT,
        "one under the limit, plus this run's own backup, is exactly the limit"
    );
}

#[test]
fn retention_is_the_recorded_ten() {
    assert_eq!(BACKUPS_KEPT, 10);
}

#[test]
fn only_the_generated_name_counts_as_a_backup() {
    assert!(is_backup_name("2026-09-03T13-45-00.123Z-v004.db"));
    assert!(is_backup_name("2026-09-03T13-45-00.123Z-v1024.db"));

    assert!(!is_backup_name("tk.db"));
    assert!(!is_backup_name(".partial-4242.db"));
    assert!(!is_backup_name("2026-09-03T13-45-00.123Z-v04.db"));
    assert!(!is_backup_name("2026-09-03T13-45-00.123Z-vabc.db"));
    assert!(!is_backup_name("-v004.db"));
    for stray in HAND_MADE {
        assert!(!is_backup_name(stray), "{stray} is not ours to delete");
    }
}

#[test]
fn the_file_stamp_drops_only_the_windows_illegal_character() {
    assert_eq!(file_stamp(NOW), "2026-09-03T13-45-00.123Z");
    assert!(!file_stamp(NOW).contains(':'), "':' is illegal in a Windows filename");
    assert!(file_stamp(NOW).contains(".123"), "milliseconds stay");
}

#[test]
fn backups_stand_beside_the_database() {
    assert_eq!(backup_dir(Some("/repo/.git/tk/tk.db")), Some("/repo/.git/tk/backups".to_owned()));
    assert_eq!(backup_dir(Some("/tk.db")), Some("/backups".to_owned()));
    assert_eq!(backup_dir(Some("tk.db")), Some("backups".to_owned()));
    assert_eq!(backup_dir(Some("/")), None);
}

#[test]
fn a_version_is_filled_up_to_three_places() {
    assert_eq!(backup_name("t", 4), "t-v004.db");
    assert_eq!(backup_name("t", 16), "t-v016.db");
    assert_eq!(backup_name("t", 1024), "t-v1024.db");
    assert_eq!(backup_name("t", -1), "t-v-01.db");
    assert_eq!(partial_name(4242), ".partial-4242.db");
    assert!(is_backup_name(&backup_name(NOW, 0)));
}
