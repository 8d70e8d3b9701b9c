//! Schema migrations, and what the schema admits.

use tk_store::domain::{
    ItemClass, Lifecycle, MutationState, MutationType, Origin, Priority, SelectionState,
    TicketKind, WorkState,
};
use tk_store::backup::BackupError;
use tk_store::migrations::{
    apply_all, apply_one, migration, ApplyError, ForeignKeys, Migration, Outcome, Schema, Task,
    Upgrade, APPLICATION_ID, MAX_KNOWN_VERSION,
};
use tk_store::mutations::{transition, TransitionRequest};
use tk_store::repository::{open_existing, OpenError};
use tk_store::rows::{Alias, Dependency, ExternalBlocker, FormerIdentity, Item, Mutation};
use tk_store::tables::{Counter, Fault, Store};

/// The time of every change that a test makes, unless it says otherwise.
#[allow(dead_code)]
const NOW: &str = "2026-05-09T00:00:00.000Z";

/// A later time.
#[allow(dead_code)]
const LATER: &str = "2030-03-17T17:46:40.000Z";

/// A fresh store: counters at zero and a Display ID prefix.
fn open_seeded() -> Store {
    let mut store = Store::new();
    store.set_counter(Counter::ItemCreated, Some(0));
    store.set_counter(Counter::Display, Some(0));
    store.set_counter(Counter::Mutation, Some(0));
    store.set_display_prefix(Some("tk".to_owned()));
    store
}

/// An Item to put into the store.
#[derive(Clone, Copy)]
struct FixtureItem<'a> {
    id: &'a str,
    display: &'a str,
    item_class: &'a str,
    ticket_kind: Option<&'a str>,
    priority: Option<&'a str>,
    selection_state: Option<&'a str>,
    title: &'a str,
    body: &'a str,
    status: &'a str,
    closing_reason: Option<&'a str>,
    container_id: Option<&'a str>,
    origin: &'a str,
    backend_kind: Option<&'a str>,
    backend_key: Option<&'a str>,
    created_seq: i64,
    created_at: &'a str,
    updated_at: &'a str,
}

impl<'a> Default for FixtureItem<'a> {
    fn default() -> Self {
        FixtureItem {
            id: "",
            display: "",
            item_class: "ticket",
            ticket_kind: Some("task"),
            priority: Some("P2"),
            selection_state: Some("accepted"),
            title: "",
            body: "",
            status: "open",
            closing_reason: None,
            container_id: None,
            origin: "local",
            backend_kind: None,
            backend_key: None,
            created_seq: 0,
            created_at: NOW,
            updated_at: NOW,
        }
    }
}

fn fixture_row(item: FixtureItem<'_>) -> Item {
    let epic = item.item_class == "epic";
    Item {
        id: item.id.to_owned(),
        display_id: item.display.to_owned(),
        display_created_at: NOW.to_owned(),
        item_class: ItemClass::parse(item.item_class).unwrap(),
        ticket_kind: item.ticket_kind.map(|t| TicketKind::parse(t).unwrap()),
        priority: item.priority.map(|t| Priority::parse(t).unwrap()),
        selection_state: if epic {
            None
        } else {
            item.selection_state.map(|t| SelectionState::parse(t).unwrap())
        },
        title: item.title.to_owned(),
        body: item.body.to_owned(),
        closing_reason: item.closing_reason.map(str::to_owned),
        lifecycle: if item.status == "done" { Lifecycle::Done } else { Lifecycle::Open },
        work_state: if item.status == "active" { WorkState::Active } else { WorkState::Idle },
        container_id: item.container_id.map(str::to_owned),
        origin: Origin::parse(item.origin).unwrap(),
        backend_kind: item.backend_kind.map(str::to_owned),
        backend_key: item.backend_key.map(str::to_owned),
        local_display_id: None,
        created_seq: item.created_seq,
        created_at: item.created_at.to_owned(),
        updated_at: item.updated_at.to_owned(),
    }
}

fn insert_fixture_item(store: &mut Store, item: FixtureItem<'_>) -> Result<(), Fault> {
    store.insert_item(fixture_row(item))
}

#[allow(dead_code)]
fn insert_alias(store: &mut Store, value: &str, item_id: &str) -> Result<(), Fault> {
    store.insert_alias(Alias {
        value: value.to_owned(),
        item_id: item_id.to_owned(),
        created_at: NOW.to_owned(),
    })
}

#[allow(dead_code)]
fn insert_dependency(store: &mut Store, blocking: &str, blocked: &str) -> Result<(), Fault> {
    store.insert_dependency(Dependency {
        blocking_id: blocking.to_owned(),
        blocked_id: blocked.to_owned(),
        created_at: NOW.to_owned(),
    })
}

#[allow(dead_code)]
fn insert_external_blocker(
    store: &mut Store,
    id: &str,
    item_id: &str,
    resolved_at: Option<&str>,
) -> Result<(), Fault> {
    store.insert_external_blocker(ExternalBlocker {
        id: id.to_owned(),
        item_id: item_id.to_owned(),
        reason: "fixture blocker".to_owned(),
        created_at: NOW.to_owned(),
        resolved_at: resolved_at.map(str::to_owned),
    })
}

/// A Mutation to put into the log.
#[derive(Clone, Copy)]
struct FixtureMutation<'a> {
    sequence: i64,
    mutation_type: &'a str,
    item_id: &'a str,
    item_class: &'a str,
    payload_json: &'a str,
    state: &'a str,
    failure_json: Option<&'a str>,
    promotion_operation_id: Option<&'a str>,
}

impl<'a> Default for FixtureMutation<'a> {
    fn default() -> Self {
        FixtureMutation {
            sequence: 1,
            mutation_type: "update_ticket",
            item_id: "",
            item_class: "ticket",
            payload_json: "{}",
            state: "pending",
            failure_json: None,
            promotion_operation_id: None,
        }
    }
}

#[allow(dead_code)]
fn insert_fixture_mutation(store: &mut Store, m: FixtureMutation<'_>) -> Result<(), Fault> {
    store.insert_mutation(Mutation {
        sequence: m.sequence,
        mutation_type: MutationType::parse(m.mutation_type).unwrap(),
        item_id: m.item_id.to_owned(),
        item_class: ItemClass::parse(m.item_class).unwrap(),
        payload_json: m.payload_json.to_owned(),
        state: MutationState::parse(m.state).unwrap(),
        failure_json: m.failure_json.map(str::to_owned),
        created_at: NOW.to_owned(),
        state_changed_at: NOW.to_owned(),
        promotion_operation_id: m.promotion_operation_id.map(str::to_owned),
    })
}

#[allow(dead_code)]
fn the_item<'a>(store: &'a Store, id: &str) -> &'a Item {
    store.item(store.find(id).unwrap())
}

#[allow(dead_code)]
fn item_axes(store: &Store, id: &str) -> (Lifecycle, WorkState) {
    let item = the_item(store, id);
    (item.lifecycle, item.work_state)
}

#[allow(dead_code)]
fn mutation_types(store: &Store) -> Vec<&'static str> {
    (0..store.mutation_count())
        .map(|i| store.mutation(i).mutation_type.text())
        .collect()
}

#[allow(dead_code)]
fn mutation_states(store: &Store) -> Vec<&'static str> {
    (0..store.mutation_count())
        .map(|i| store.mutation(i).state.text())
        .collect()
}

#[allow(dead_code)]
fn payloads(store: &Store) -> Vec<&str> {
    (0..store.mutation_count())
        .map(|i| store.mutation(i).payload_json.as_str())
        .collect()
}

fn ran() -> Outcome {
    Outcome { script: Ok(()), dangling: None }
}

fn all_ran() -> Vec<Outcome> {
    (0..MAX_KNOWN_VERSION).map(|_| ran()).collect()
}

fn applied(now: &str) -> Schema {
    let mut schema = Schema::new();
    apply_all(&mut schema, now, Ok(()), &all_ran()).unwrap();
    schema
}

#[test]
fn apply_all_on_empty_db_installs_every_migration() {
    let schema = applied("2026-05-09T00:00:00.000Z");
    assert_eq!(schema.current_version(), i64::from(MAX_KNOWN_VERSION));
    assert_eq!(schema.application_id, APPLICATION_ID);
    assert_eq!(schema.user_version, i64::from(MAX_KNOWN_VERSION));
}

#[test]
fn apply_all_is_idempotent_on_a_current_store() {
    let mut schema = applied("2026-05-09T00:00:00.000Z");
    apply_all(&mut schema, "2026-05-09T00:00:01.000Z", Ok(()), &all_ran()).unwrap();
    assert_eq!(schema.applied.len(), MAX_KNOWN_VERSION as usize);
}

#[test]
fn apply_all_rejects_future_version() {
    let mut schema = applied("2026-05-09T00:00:00.000Z");
    schema.applied.push(tk_store::migrations::Applied {
        version: 999,
        applied_at: "2099-01-01T00:00:00.000Z".to_owned(),
    });
    assert!(matches!(
        apply_all(&mut schema, "2026-05-09T00:00:00.000Z", Ok(()), &all_ran()),
        Err(ApplyError::StoreFromFutureVersion)
    ));
}

#[test]
fn apply_all_records_applied_at_from_caller_supplied_clock() {
    let fixed = "2026-05-09T12:34:56.789Z";
    let schema = applied(fixed);
    assert_eq!(schema.applied[0].version, 1);
    assert_eq!(schema.applied[0].applied_at, fixed);
}

#[test]
fn apply_one_re_reads_version_and_no_ops_when_already_applied() {
    let mut schema = applied("2026-05-09T00:00:00.000Z");
    assert_eq!(schema.current_version(), i64::from(MAX_KNOWN_VERSION));
    // The script would fail with a duplicate column; it must not be consulted.
    let failing = Outcome { script: Err("duplicate column: closing_reason".to_owned()), dangling: None };
    apply_one(&mut schema, &migration(3), "2026-05-09T00:00:01.000Z", &failing)
        .expect("re-applying an already-applied migration must be a clean no-op");
    assert_eq!(schema.applied.iter().filter(|a| a.version == 3).count(), 1);
}

#[test]
fn fk_off_rebuild_restores_foreign_keys_after_a_failed_check() {
    let mut schema = applied("2026-05-09T00:00:00.000Z");
    let bad = Migration { version: 99, script: "fk_probe", foreign_keys: ForeignKeys::Off };
    let outcome = Outcome { script: Ok(()), dangling: Some("fk_probe".to_owned()) };
    let result = apply_one(&mut schema, &bad, "2026-05-09T00:00:02.000Z", &outcome);
    assert!(
        matches!(result, Err(ApplyError::ForeignKeyCheck(_))),
        "a dangling reference must surface as ForeignKeyCheck: {result:?}"
    );
    assert_eq!(schema.current_version(), i64::from(MAX_KNOWN_VERSION));
}

#[test]
fn apply_all_surfaces_sqlite_error_with_table_name() {
    let mut schema = Schema::new();
    let mut outcomes = all_ran();
    outcomes[0].script = Err("table items already exists".to_owned());
    let err = apply_all(&mut schema, "2026-05-09T00:00:00.000Z", Ok(()), &outcomes).unwrap_err();
    let msg = err.message();
    assert!(msg.contains("items"), "error should mention `items`: {msg}");
    assert_eq!(schema.current_version(), 0);
}

#[test]
fn a_failed_migration_keeps_those_before_it() {
    let mut schema = Schema::new();
    let mut outcomes = all_ran();
    outcomes[4].dangling = Some("dependencies".to_owned());
    let err = apply_all(&mut schema, NOW, Ok(()), &outcomes).unwrap_err();
    assert_eq!(
        err.message(),
        "migration left a dangling foreign key in table `dependencies`"
    );
    assert_eq!(schema.current_version(), 4);
    assert_eq!(schema.user_version, 4);
    // A dangling reference that a plain migration finds is not its own doing.
    outcomes[4].dangling = None;
    outcomes[6].dangling = Some("dependencies".to_owned());
    apply_all(&mut schema, LATER, Ok(()), &outcomes).unwrap();
    assert_eq!(schema.current_version(), i64::from(MAX_KNOWN_VERSION));
    assert_eq!(schema.applied[4].applied_at, LATER);
}

#[test]
fn an_upgrade_is_backed_up_and_stops_at_the_first_failure() {
    let ran = || Outcome { script: Ok(()), dangling: None };
    let mut schema = Schema::new();
    let mut upgrade = Upgrade::begin(schema.current_version()).unwrap();
    assert_eq!(upgrade.task, Task::Run(1), "a database without a schema has nothing to back up");
    while let Task::Run(version) = upgrade.task {
        assert!(schema.lacks(version));
        upgrade = upgrade.ran(&mut schema, NOW, &ran()).unwrap();
        assert!(!schema.lacks(version));
    }
    assert_eq!(upgrade.task, Task::Complete);
    assert_eq!(schema.applied.len(), MAX_KNOWN_VERSION as usize);
    assert_eq!(schema.user_version, i64::from(MAX_KNOWN_VERSION));
    assert_eq!(schema.application_id, APPLICATION_ID);
    let again = Upgrade::begin(schema.current_version()).unwrap();
    assert_eq!(again.task, Task::Complete);
    assert!(matches!(
        Upgrade::begin(i64::from(MAX_KNOWN_VERSION) + 1),
        Err(ApplyError::StoreFromFutureVersion)
    ));

    let behind = Upgrade::begin(4).unwrap();
    assert_eq!(behind.task, Task::Backup);
    let refused =
        BackupError { dir: "/repo/.git/tk/backups".to_owned(), source: "full".to_owned() };
    assert!(matches!(
        behind.backed(Err(refused)),
        Err(ApplyError::Backup(error)) if error.dir == "/repo/.git/tk/backups" && error.source == "full"
    ));
    let on = behind.backed(Ok(())).unwrap();
    assert_eq!(on.task, Task::Run(5));
    let failed = Outcome { script: Err("no such table".to_owned()), dangling: None };
    let mut untouched = Schema::new();
    assert!(matches!(
        on.ran(&mut untouched, NOW, &failed),
        Err(ApplyError::Sqlite(text)) if text == "no such table"
    ));
    assert_eq!(untouched.current_version(), 0);
}

#[test]
fn rebuilds_run_without_foreign_keys() {
    let off: Vec<u32> = (1..=MAX_KNOWN_VERSION)
        .filter(|v| migration(*v).foreign_keys == ForeignKeys::Off)
        .collect();
    assert_eq!(off, vec![5, 6, 8, 9, 10, 11]);
    assert_eq!(migration(5).script, "005_relax_priority_for_triage.sql");
    assert_eq!(migration(16).script, "016_sync_skip_relinquishes_a_close.sql");
}

// Opening a store.

#[test]
fn open_existing_reports_store_missing_when_db_file_does_not_exist() {
    assert!(matches!(open_existing(Ok(false), &Ok(0), &Ok(0)), Err(OpenError::StoreMissing)));
}

#[test]
fn open_existing_reports_not_ticket_store_when_application_id_mismatches() {
    assert!(matches!(open_existing(Ok(true), &Ok(0), &Ok(0)), Err(OpenError::NotTicketStore)));
}

#[test]
fn open_existing_reports_from_future_version_when_schema_is_newer() {
    assert!(matches!(
        open_existing(Ok(true), &Ok(i64::from(APPLICATION_ID)), &Ok(999)),
        Err(OpenError::FromFutureVersion)
    ));
}

#[test]
fn open_existing_returns_ok_for_a_well_formed_repository_store() {
    let schema = applied(NOW);
    let opened = open_existing(
        Ok(true),
        &Ok(i64::from(schema.application_id)),
        &Ok(schema.current_version()),
    );
    assert!(opened.is_ok());
}

#[test]
fn open_existing_propagates_discovery_failure() {
    let opened = open_existing(Err("fatal: not a git repository".to_owned()), &Ok(0), &Ok(0));
    assert!(matches!(opened, Err(OpenError::DiscoveryFailed(_))));
}

#[test]
fn open_existing_passes_on_what_the_database_reports() {
    let id = Ok(i64::from(APPLICATION_ID));
    assert!(matches!(
        open_existing(Ok(true), &Err("disk I/O error".to_owned()), &Ok(1)),
        Err(OpenError::Sqlite(text)) if text == "disk I/O error"
    ));
    assert!(matches!(
        open_existing(Ok(true), &id, &Err("no such column".to_owned())),
        Err(OpenError::Sqlite(_))
    ));
    assert_eq!(
        OpenError::StoreMissing.message(),
        "Repository Store not initialized; run 'tk init'"
    );
}


/// Replace the row of an Item with an edited copy.
fn edit(store: &mut Store, id: &str, change: impl FnOnce(&mut Item)) -> Result<(), Fault> {
    let mut row = the_item(store, id).copy();
    change(&mut row);
    store.replace_item(row)
}

fn insert_former(store: &mut Store, backend_key: &str, item_id: &str, display: &str) -> Result<(), Fault> {
    store.insert_former_identity(FormerIdentity {
        backend_kind: "github".to_owned(),
        backend_key: backend_key.to_owned(),
        item_id: item_id.to_owned(),
        backend_display_value: display.to_owned(),
        detached_seq: 1,
        detached_at: NOW.to_owned(),
    })
}

fn insert_detached_done_ticket(store: &mut Store, backend_key: &str) {
    insert_fixture_item(
        store,
        FixtureItem {
            id: "t1",
            display: "tk-1",
            title: "Closed locally",
            status: "done",
            created_seq: 1,
            ..FixtureItem::default()
        },
    )
    .unwrap();
    insert_former(store, backend_key, "t1", "gh-7").unwrap();
}

/// Re-Adopt's rebind: the Item moves onto the canonical identity while importing
/// an open Lifecycle, and its local Display ID becomes an Alias.
fn readopt_rebind(store: &mut Store, backend_key: &str) -> Result<(), Fault> {
    let mut work = store.copy();
    edit(&mut work, "t1", |row| {
        row.origin = Origin::Backend;
        row.backend_kind = Some("github".to_owned());
        row.backend_key = Some(backend_key.to_owned());
        row.local_display_id = Some("tk-1".to_owned());
        row.display_id = "gh-7".to_owned();
        row.lifecycle = Lifecycle::Open;
        row.closing_reason = None;
    })?;
    insert_alias(&mut work, "tk-1", "t1")?;
    *store = work;
    Ok(())
}

#[test]
fn readopt_may_import_an_open_lifecycle_onto_a_done_item() {
    let mut store = open_seeded();
    insert_detached_done_ticket(&mut store, "https://github.com/o/r/issues/7");
    edit(&mut store, "t1", |row| row.closing_reason = Some("Superseded".to_owned())).unwrap();

    readopt_rebind(&mut store, "https://github.com/o/r/issues/7")
        .expect("Re-Adopt imports the Backend Lifecycle");

    let row = the_item(&store, "t1");
    assert_eq!((row.lifecycle.text(), row.closing_reason.clone()), ("open", None));
}

#[test]
fn the_readopt_exception_needs_the_items_own_former_identity() {
    let mut store = open_seeded();
    insert_detached_done_ticket(&mut store, "https://github.com/o/r/issues/7");

    let unknown_identity = readopt_rebind(&mut store, "https://github.com/o/r/issues/8");
    assert!(
        unknown_identity.is_err(),
        "only the Item's own Former Backend Identity authorizes the reopen"
    );

    readopt_rebind(&mut store, "https://github.com/o/r/issues/7").unwrap();
    edit(&mut store, "t1", |row| row.lifecycle = Lifecycle::Done).unwrap();
    let later_reopen = edit(&mut store, "t1", |row| row.lifecycle = Lifecycle::Open);
    assert_eq!(
        later_reopen,
        Err(Fault::DoneIsTerminal),
        "a restored Backend Item must not escape done again"
    );
}

/// A plain done Ticket carrying a Closing Reason.
fn insert_done_ticket(store: &mut Store) {
    insert_fixture_item(
        store,
        FixtureItem {
            id: "t1",
            display: "tk-1",
            title: "Closed by tk done",
            status: "done",
            created_seq: 1,
            ..FixtureItem::default()
        },
    )
    .unwrap();
    edit(store, "t1", |row| row.closing_reason = Some("Shipped".to_owned())).unwrap();
}

fn reopen(store: &mut Store, id: &str) -> Result<(), Fault> {
    edit(store, id, |row| {
        row.lifecycle = Lifecycle::Open;
        row.closing_reason = None;
    })
}

fn status_mutation<'a>(item_id: &'a str, payload_json: &'a str, state: &'a str) -> FixtureMutation<'a> {
    FixtureMutation {
        sequence: 1,
        mutation_type: "set_item_status",
        item_id,
        payload_json,
        state,
        failure_json: if state == "failed" { Some(r#"{"detail":"rejected"}"#) } else { None },
        ..FixtureMutation::default()
    }
}

#[test]
fn sync_skip_may_reopen_a_done_item_with_its_failed_closing_mutation() {
    let mut store = open_seeded();
    insert_done_ticket(&mut store);
    insert_fixture_mutation(&mut store, status_mutation("t1", r#"{"status":"done"}"#, "failed")).unwrap();

    reopen(&mut store, "t1").expect("a failed closing Mutation authorizes Sync Skip's reopen");

    let row = the_item(&store, "t1");
    assert_eq!((row.lifecycle.text(), row.closing_reason.clone()), ("open", None));
}

#[test]
fn the_reopen_exception_admits_an_epic_on_the_same_terms() {
    let mut store = open_seeded();
    insert_fixture_item(
        &mut store,
        FixtureItem {
            id: "e1",
            display: "tk-1",
            item_class: "epic",
            ticket_kind: None,
            priority: None,
            title: "Closed Epic",
            status: "done",
            created_seq: 1,
            ..FixtureItem::default()
        },
    )
    .unwrap();
    insert_fixture_mutation(
        &mut store,
        FixtureMutation { item_class: "epic", ..status_mutation("e1", r#"{"status":"done"}"#, "failed") },
    )
    .unwrap();

    edit(&mut store, "e1", |row| row.lifecycle = Lifecycle::Open)
        .expect("a failed closing Mutation authorizes the reopen for an Epic too");
    assert_eq!(the_item(&store, "e1").lifecycle.text(), "open");
}

#[test]
fn a_done_item_with_no_failed_closing_mutation_stays_refused() {
    let mut store = open_seeded();
    insert_done_ticket(&mut store);
    // The Closing Reason stays, so the row is none that the table admits either;
    // the done Item is what is reported.
    let reopened = edit(&mut store, "t1", |row| row.lifecycle = Lifecycle::Open);
    assert_eq!(reopened, Err(Fault::DoneIsTerminal));
}

#[test]
fn a_failed_non_closing_status_mutation_does_not_authorize_reopen() {
    let mut store = open_seeded();
    insert_done_ticket(&mut store);
    insert_fixture_mutation(
        &mut store,
        FixtureMutation {
            promotion_operation_id: Some("op-1"),
            ..status_mutation("t1", r#"{"status":"active"}"#, "failed")
        },
    )
    .unwrap();
    assert_eq!(reopen(&mut store, "t1"), Err(Fault::DoneIsTerminal));
}

#[test]
fn a_pending_closing_mutation_does_not_authorize_reopen() {
    let mut store = open_seeded();
    insert_done_ticket(&mut store);
    insert_fixture_mutation(&mut store, status_mutation("t1", r#"{"status":"done"}"#, "pending")).unwrap();
    assert_eq!(reopen(&mut store, "t1"), Err(Fault::DoneIsTerminal));
}

#[test]
fn a_failed_close_on_another_item_does_not_authorize_this_one() {
    let mut store = open_seeded();
    insert_done_ticket(&mut store);
    insert_fixture_item(
        &mut store,
        FixtureItem {
            id: "t2",
            display: "tk-2",
            title: "Its close failed",
            status: "done",
            created_seq: 2,
            ..FixtureItem::default()
        },
    )
    .unwrap();
    insert_fixture_mutation(&mut store, status_mutation("t2", r#"{"status":"done"}"#, "failed")).unwrap();
    assert_eq!(reopen(&mut store, "t1"), Err(Fault::DoneIsTerminal));
}

#[test]
fn an_applied_closing_mutation_does_not_authorize_reopen() {
    let mut store = open_seeded();
    insert_done_ticket(&mut store);
    insert_fixture_mutation(&mut store, status_mutation("t1", r#"{"status":"done"}"#, "applied")).unwrap();
    assert_eq!(reopen(&mut store, "t1"), Err(Fault::DoneIsTerminal));
}

#[test]
fn a_later_done_to_open_is_refused_once_the_mutation_moves_to_skipped() {
    let mut store = open_seeded();
    insert_done_ticket(&mut store);
    insert_fixture_mutation(&mut store, status_mutation("t1", r#"{"status":"done"}"#, "failed")).unwrap();
    reopen(&mut store, "t1").expect("the failed closing Mutation authorizes this reopen");

    edit(&mut store, "t1", |row| {
        row.lifecycle = Lifecycle::Done;
        row.closing_reason = Some("Shipped again".to_owned());
    })
    .unwrap();
    transition(
        &mut store,
        TransitionRequest {
            sequence: 1,
            from: MutationState::Failed,
            to: MutationState::Skipped,
            failure: None,
            now: LATER,
        },
    )
    .unwrap();

    assert_eq!(reopen(&mut store, "t1"), Err(Fault::DoneIsTerminal));
}

#[test]
fn former_backend_identity_is_reserved_to_its_stable_item() {
    let mut store = open_seeded();
    for (id, display, key, seq) in [
        ("former-owner", "gh-1", "https://github.com/o/r/issues/1", 1),
        ("other", "gh-2", "https://github.com/o/r/issues/2", 2),
    ] {
        insert_fixture_item(
            &mut store,
            FixtureItem {
                id,
                display,
                title: "Item",
                origin: "backend",
                backend_kind: Some("github"),
                backend_key: Some(key),
                created_seq: seq,
                ..FixtureItem::default()
            },
        )
        .unwrap();
    }
    insert_former(&mut store, "https://github.com/o/r/issues/1", "former-owner", "gh-1").unwrap();
    edit(&mut store, "former-owner", |row| {
        row.origin = Origin::Local;
        row.backend_kind = None;
        row.backend_key = None;
    })
    .unwrap();

    let claim = edit(&mut store, "other", |row| {
        row.backend_key = Some("https://github.com/o/r/issues/1".to_owned());
    });
    assert_eq!(
        claim,
        Err(Fault::BackendIdentityTaken),
        "another Item must not claim a former identity"
    );

    let move_history = insert_former(&mut store, "https://github.com/o/r/issues/2", "former-owner", "gh-2");
    assert!(
        move_history.is_err(),
        "former identity history must not move onto an actively bound Item"
    );
}

fn ticket<'a>(status: &'a str) -> FixtureItem<'a> {
    FixtureItem {
        id: "t1",
        display: "tk-1",
        title: "Ticket",
        status,
        created_seq: 1,
        ..FixtureItem::default()
    }
}

fn epic<'a>() -> FixtureItem<'a> {
    FixtureItem {
        id: "e1",
        display: "tk-2",
        item_class: "epic",
        ticket_kind: None,
        priority: None,
        title: "Epic",
        created_seq: 2,
        ..FixtureItem::default()
    }
}

#[test]
fn closing_reason_accepts_nonempty_value_on_a_done_item() {
    let mut store = open_seeded();
    insert_fixture_item(&mut store, ticket("done")).unwrap();
    edit(&mut store, "t1", |row| row.closing_reason = Some("Fixed in PR #12".to_owned())).unwrap();
    assert_eq!(the_item(&store, "t1").closing_reason.as_deref(), Some("Fixed in PR #12"));
}

#[test]
fn closing_reason_check_rejects_a_reason_on_a_non_done_item() {
    let mut store = open_seeded();
    insert_fixture_item(&mut store, ticket("open")).unwrap();
    let err = edit(&mut store, "t1", |row| row.closing_reason = Some("premature".to_owned())).unwrap_err();
    assert_eq!(err, Fault::Check);
}

#[test]
fn closing_reason_check_rejects_an_empty_reason() {
    let mut store = open_seeded();
    insert_fixture_item(&mut store, ticket("done")).unwrap();
    let err = edit(&mut store, "t1", |row| row.closing_reason = Some(String::new())).unwrap_err();
    assert_eq!(err, Fault::Check);
}

#[test]
fn selection_state_check_rejects_a_value_on_an_epic() {
    let mut store = open_seeded();
    insert_fixture_item(&mut store, epic()).unwrap();
    let err = edit(&mut store, "e1", |row| row.selection_state = Some(SelectionState::Accepted)).unwrap_err();
    assert_eq!(err, Fault::Check);
}

#[test]
fn selection_state_check_rejects_an_unknown_value() {
    assert_eq!(SelectionState::parse("archived"), None);
}

#[test]
fn selection_state_null_on_a_ticket_is_rejected_after_rebuild() {
    let mut store = open_seeded();
    insert_fixture_item(&mut store, ticket("open")).unwrap();
    let err = edit(&mut store, "t1", |row| row.selection_state = None).unwrap_err();
    assert_eq!(err, Fault::Check);
}

#[test]
fn accepted_ticket_with_null_priority_is_rejected() {
    let mut store = open_seeded();
    insert_fixture_item(&mut store, ticket("open")).unwrap();
    let err = edit(&mut store, "t1", |row| row.priority = None).unwrap_err();
    assert_eq!(err, Fault::Check);
}

#[test]
fn rebuild_admits_a_triage_ticket_with_null_priority() {
    let mut store = open_seeded();
    insert_fixture_item(
        &mut store,
        FixtureItem { title: "Captured", priority: None, selection_state: Some("triage"), ..ticket("open") },
    )
    .expect("a triage Ticket with no Priority is valid");
    let row = the_item(&store, "t1");
    assert!(row.priority.is_none());
    assert_eq!(row.selection_state.unwrap().text(), "triage");
}

#[test]
fn rebuild_rejects_a_parked_ticket_without_priority() {
    let mut store = open_seeded();
    insert_fixture_item(&mut store, FixtureItem { selection_state: Some("parked"), ..ticket("open") }).unwrap();
    let err = edit(&mut store, "t1", |row| row.priority = None).unwrap_err();
    assert_eq!(err, Fault::Check);
}

#[test]
fn active_ticket_must_be_accepted() {
    let mut store = open_seeded();
    insert_fixture_item(&mut store, ticket("active")).expect("an accepted, active Ticket is valid");
    let err = edit(&mut store, "t1", |row| row.selection_state = Some(SelectionState::Parked)).unwrap_err();
    assert_eq!(err, Fault::Check);
}

#[test]
fn active_triage_ticket_is_rejected_at_insert() {
    let mut store = open_seeded();
    let result = insert_fixture_item(
        &mut store,
        FixtureItem { priority: None, selection_state: Some("triage"), ..ticket("active") },
    );
    assert!(result.is_err(), "an active triage Ticket must be rejected at INSERT");
}

#[test]
fn applying_state_accepts_only_matching_promotion_shapes() {
    let mut store = open_seeded();
    insert_fixture_item(&mut store, ticket("open")).unwrap();
    insert_fixture_item(&mut store, epic()).unwrap();
    for (sequence, mutation_type, item_id, item_class) in [
        (1, "update_ticket", "t1", "ticket"),
        (2, "promote_epic", "t1", "ticket"),
        (3, "promote_ticket", "e1", "epic"),
    ] {
        let result = insert_fixture_mutation(
            &mut store,
            FixtureMutation {
                sequence,
                mutation_type,
                item_id,
                item_class,
                state: "applying",
                ..FixtureMutation::default()
            },
        );
        assert!(result.is_err(), "{mutation_type}/{item_class} must not enter applying");
    }
}

#[test]
fn a_promotion_may_be_cancelled_but_never_skipped() {
    let mut store = open_seeded();
    insert_fixture_item(&mut store, ticket("open")).unwrap();
    let mut insert = |sequence: i64, mutation_type: &str, state: &str| {
        insert_fixture_mutation(
            &mut store,
            FixtureMutation { sequence, mutation_type, item_id: "t1", state, ..FixtureMutation::default() },
        )
    };
    assert!(insert(1, "promote_ticket", "skipped").is_err(), "Sync Skip never touches a Promotion");
    insert(2, "promote_ticket", "cancelled").expect("cancellation is a Promotion's exit");
    insert(3, "update_ticket", "skipped").expect("Sync Skip still curates an ordinary Mutation");
    insert(4, "update_ticket", "cancelled")
        .expect("collateral of a withdrawn operation is cancelled whatever its kind");
}

#[test]
fn only_a_promotion_may_be_abandoned() {
    let mut store = open_seeded();
    insert_fixture_item(&mut store, ticket("open")).unwrap();
    insert_fixture_item(&mut store, epic()).unwrap();
    let mut insert = |sequence: i64, mutation_type: &str, item_id: &str, item_class: &str, state: &str| {
        insert_fixture_mutation(
            &mut store,
            FixtureMutation { sequence, mutation_type, item_id, item_class, state, ..FixtureMutation::default() },
        )
    };
    insert(1, "promote_ticket", "t1", "ticket", "abandoned").expect("an unobserved Ticket creation is abandoned");
    insert(2, "promote_epic", "e1", "epic", "abandoned").expect("an unobserved Epic creation is abandoned");
    assert!(insert(3, "update_ticket", "t1", "ticket", "abandoned").is_err());
    assert!(insert(4, "promote_epic", "t1", "ticket", "abandoned").is_err());
}

#[test]
fn status_check_rejects_the_departed_active_spelling() {
    assert_eq!(Lifecycle::parse("active"), None);
    assert_eq!(Lifecycle::parse("open"), Some(Lifecycle::Open));
}

#[test]
fn work_state_check_rejects_an_unknown_value() {
    assert_eq!(WorkState::parse("paused"), None);
}

#[test]
fn an_active_ticket_must_still_be_accepted_after_the_conjunct_moves() {
    let mut store = open_seeded();
    for (id, display, selection, priority, seq) in [
        ("t1", "tk-1", "triage", None, 1),
        ("t2", "tk-2", "parked", Some("P2"), 2),
    ] {
        insert_fixture_item(
            &mut store,
            FixtureItem {
                id,
                display,
                title: "Work",
                priority,
                selection_state: Some(selection),
                created_seq: seq,
                ..FixtureItem::default()
            },
        )
        .unwrap();
        let err = edit(&mut store, id, |row| row.work_state = WorkState::Active).unwrap_err();
        assert_eq!(err, Fault::Check, "a {selection} Ticket must not go active");
    }
}

#[test]
fn the_relocated_conjunct_admits_an_active_epic() {
    let mut store = open_seeded();
    insert_fixture_item(&mut store, FixtureItem { status: "active", ..epic() }).unwrap();
    assert_eq!(item_axes(&store, "e1"), (Lifecycle::Open, WorkState::Active));
}

#[test]
fn a_row_keeps_its_class_and_finds_its_container() {
    let mut store = open_seeded();
    insert_fixture_item(&mut store, ticket("open")).unwrap();
    insert_fixture_item(&mut store, epic()).unwrap();
    assert_eq!(
        edit(&mut store, "t1", |row| row.container_id = Some("missing".to_owned())),
        Err(Fault::ForeignKey)
    );
    assert_eq!(
        edit(&mut store, "t1", |row| row.container_id = Some("e1".to_owned())),
        Ok(())
    );
    assert_eq!(
        edit(&mut store, "t1", |row| row.display_id = "TK-2".to_owned()),
        Err(Fault::DisplayIdTaken)
    );
    assert_eq!(edit(&mut store, "t1", |row| row.created_seq = 9), Err(Fault::Check));
    let mut stray = the_item(&store, "t1").copy();
    stray.id = "nobody".to_owned();
    assert_eq!(store.replace_item(stray), Err(Fault::NoRow));
}
