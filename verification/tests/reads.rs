//! Operations that read the store.

use tk_store::domain::{
    ItemClass, ItemStatus, Lifecycle, MutationState, MutationType, Origin, Priority,
    SelectionState, TicketKind, WorkState,
};
use tk_store::repository::list::{
    list_rows, ListClassFilter, ListOptions, ListOriginFilter, ListRow, ListView,
};
use tk_store::repository::next::{next_ready_ticket, NextOptions, NextScope};
use tk_store::repository::search::search_rows;
use tk_store::repository::show::show_item;
use tk_store::repository::{
    resolve_as_epic, resolve_item_ref, resolve_item_ref_with_display, ResolveEpicError,
};
use tk_store::rows::{Alias, Dependency, ExternalBlocker, Item, Mutation};
use tk_store::tables::{Counter, Fault, Store};

/// The time of every change that a test makes, unless it says otherwise.
#[allow(dead_code)]
const NOW: &str = "2026-05-09T00:00:00.000Z";

/// A later time.
#[allow(dead_code)]
const LATER: &str = "2030-03-17T17:46:40.000Z";

/// A fresh store: counters at zero and a Display ID prefix.
fn open_seeded() -> Store {
    let mut store = Store::new();
    store.set_counter(Counter::ItemCreated, Some(0));
    store.set_counter(Counter::Display, Some(0));
    store.set_counter(Counter::Mutation, Some(0));
    store.set_display_prefix(Some("tk".to_owned()));
    store
}

/// An Item to put into the store.
#[derive(Clone, Copy)]
struct FixtureItem<'a> {
    id: &'a str,
    display: &'a str,
    item_class: &'a str,
    ticket_kind: Option<&'a str>,
    priority: Option<&'a str>,
    selection_state: Option<&'a str>,
    title: &'a str,
    body: &'a str,
    status: &'a str,
    closing_reason: Option<&'a str>,
    container_id: Option<&'a str>,
    origin: &'a str,
    backend_kind: Option<&'a str>,
    backend_key: Option<&'a str>,
    created_seq: i64,
    created_at: &'a str,
    updated_at: &'a str,
}

impl<'a> Default for FixtureItem<'a> {
    fn default() -> Self {
        FixtureItem {
            id: "",
            display: "",
            item_class: "ticket",
            ticket_kind: Some("task"),
            priority: Some("P2"),
            selection_state: Some("accepted"),
            title: "",
            body: "",
            status: "open",
            closing_reason: None,
            container_id: None,
            origin: "local",
            backend_kind: None,
            backend_key: None,
            created_seq: 0,
            created_at: NOW,
            updated_at: NOW,
        }
    }
}

fn fixture_row(item: FixtureItem<'_>) -> Item {
    let epic = item.item_class == "epic";
    Item {
        id: item.id.to_owned(),
        display_id: item.display.to_owned(),
        display_created_at: NOW.to_owned(),
        item_class: ItemClass::parse(item.item_class).unwrap(),
        ticket_kind: item.ticket_kind.map(|t| TicketKind::parse(t).unwrap()),
        priority: item.priority.map(|t| Priority::parse(t).unwrap()),
        selection_state: if epic {
            None
        } else {
            item.selection_state.map(|t| SelectionState::parse(t).unwrap())
        },
        title: item.title.to_owned(),
        body: item.body.to_owned(),
        closing_reason: item.closing_reason.map(str::to_owned),
        lifecycle: if item.status == "done" { Lifecycle::Done } else { Lifecycle::Open },
        work_state: if item.status == "active" { WorkState::Active } else { WorkState::Idle },
        container_id: item.container_id.map(str::to_owned),
        origin: Origin::parse(item.origin).unwrap(),
        backend_kind: item.backend_kind.map(str::to_owned),
        backend_key: item.backend_key.map(str::to_owned),
        local_display_id: None,
        created_seq: item.created_seq,
        created_at: item.created_at.to_owned(),
        updated_at: item.updated_at.to_owned(),
    }
}

fn insert_fixture_item(store: &mut Store, item: FixtureItem<'_>) -> Result<(), Fault> {
    store.insert_item(fixture_row(item))
}

#[allow(dead_code)]
fn insert_alias(store: &mut Store, value: &str, item_id: &str) -> Result<(), Fault> {
    store.insert_alias(Alias {
        value: value.to_owned(),
        item_id: item_id.to_owned(),
        created_at: NOW.to_owned(),
    })
}

#[allow(dead_code)]
fn insert_dependency(store: &mut Store, blocking: &str, blocked: &str) -> Result<(), Fault> {
    store.insert_dependency(Dependency {
        blocking_id: blocking.to_owned(),
        blocked_id: blocked.to_owned(),
        created_at: NOW.to_owned(),
    })
}

#[allow(dead_code)]
fn insert_external_blocker(
    store: &mut Store,
    id: &str,
    item_id: &str,
    resolved_at: Option<&str>,
) -> Result<(), Fault> {
    store.insert_external_blocker(ExternalBlocker {
        id: id.to_owned(),
        item_id: item_id.to_owned(),
        reason: "fixture blocker".to_owned(),
        created_at: NOW.to_owned(),
        resolved_at: resolved_at.map(str::to_owned),
    })
}

/// A Mutation to put into the log.
#[derive(Clone, Copy)]
struct FixtureMutation<'a> {
    sequence: i64,
    mutation_type: &'a str,
    item_id: &'a str,
    item_class: &'a str,
    payload_json: &'a str,
    state: &'a str,
    failure_json: Option<&'a str>,
    promotion_operation_id: Option<&'a str>,
}

impl<'a> Default for FixtureMutation<'a> {
    fn default() -> Self {
        FixtureMutation {
            sequence: 1,
            mutation_type: "update_ticket",
            item_id: "",
            item_class: "ticket",
            payload_json: "{}",
            state: "pending",
            failure_json: None,
            promotion_operation_id: None,
        }
    }
}

#[allow(dead_code)]
fn insert_fixture_mutation(store: &mut Store, m: FixtureMutation<'_>) -> Result<(), Fault> {
    store.insert_mutation(Mutation {
        sequence: m.sequence,
        mutation_type: MutationType::parse(m.mutation_type).unwrap(),
        item_id: m.item_id.to_owned(),
        item_class: ItemClass::parse(m.item_class).unwrap(),
        payload_json: m.payload_json.to_owned(),
        state: MutationState::parse(m.state).unwrap(),
        failure_json: m.failure_json.map(str::to_owned),
        created_at: NOW.to_owned(),
        state_changed_at: NOW.to_owned(),
        promotion_operation_id: m.promotion_operation_id.map(str::to_owned),
    })
}

#[allow(dead_code)]
fn the_item<'a>(store: &'a Store, id: &str) -> &'a Item {
    store.item(store.find(id).unwrap())
}

#[allow(dead_code)]
fn item_axes(store: &Store, id: &str) -> (Lifecycle, WorkState) {
    let item = the_item(store, id);
    (item.lifecycle, item.work_state)
}

#[allow(dead_code)]
fn mutation_types(store: &Store) -> Vec<&'static str> {
    (0..store.mutation_count())
        .map(|i| store.mutation(i).mutation_type.text())
        .collect()
}

#[allow(dead_code)]
fn mutation_states(store: &Store) -> Vec<&'static str> {
    (0..store.mutation_count())
        .map(|i| store.mutation(i).state.text())
        .collect()
}

#[allow(dead_code)]
fn payloads(store: &Store) -> Vec<&str> {
    (0..store.mutation_count())
        .map(|i| store.mutation(i).payload_json.as_str())
        .collect()
}

#[test]
fn resolve_item_ref_returns_none_for_unknown_value() {
    let store = open_seeded();
    assert!(resolve_item_ref(&store, "nothing-here").is_none());
}

#[test]
fn resolve_item_ref_finds_by_display_id() {
    let mut store = open_seeded();
    insert_fixture_item(
        &mut store,
        FixtureItem {
            id: "t1",
            display: "tk-1",
            title: "Ticket",
            created_seq: 1,
            ..FixtureItem::default()
        },
    )
    .unwrap();
    let r = resolve_item_ref(&store, "tk-1").unwrap();
    assert_eq!(r.id, "t1");
    assert_eq!(r.item_class, ItemClass::Ticket);
}

#[test]
fn resolve_item_ref_is_case_insensitive() {
    let mut store = open_seeded();
    insert_fixture_item(
        &mut store,
        FixtureItem {
            id: "t1",
            display: "tk-1",
            title: "Ticket",
            created_seq: 1,
            ..FixtureItem::default()
        },
    )
    .unwrap();
    let r = resolve_item_ref(&store, "TK-1").unwrap();
    assert_eq!(r.id, "t1");
}

#[test]
fn resolve_item_ref_finds_by_alias() {
    let mut store = open_seeded();
    insert_fixture_item(
        &mut store,
        FixtureItem {
            id: "t1",
            display: "tk-1",
            title: "Ticket",
            created_seq: 1,
            ..FixtureItem::default()
        },
    )
    .unwrap();
    insert_alias(&mut store, "my-alias", "t1").unwrap();
    let r = resolve_item_ref(&store, "my-alias").unwrap();
    assert_eq!(r.id, "t1");
}

#[test]
fn resolve_item_ref_with_display_returns_canonical_display() {
    let mut store = open_seeded();
    insert_fixture_item(
        &mut store,
        FixtureItem {
            id: "t1",
            display: "tk-42",
            title: "Ticket",
            created_seq: 1,
            ..FixtureItem::default()
        },
    )
    .unwrap();
    insert_alias(&mut store, "alias", "t1").unwrap();
    let r = resolve_item_ref_with_display(&store, "alias")
        .unwrap();
    assert_eq!(r.display_id, "tk-42");
}

#[test]
fn resolve_as_epic_returns_epic_for_an_epic_display_id() {
    let mut store = open_seeded();
    insert_fixture_item(
        &mut store,
        FixtureItem {
            id: "e1",
            display: "tk-1",
            item_class: "epic",
            ticket_kind: None,
            priority: None,
            title: "Epic",
            created_seq: 1,
            ..FixtureItem::default()
        },
    )
    .unwrap();
    assert_eq!(resolve_as_epic(&store, "tk-1").unwrap().id, "e1");
}

#[test]
fn resolve_as_epic_flags_a_ticket_resolution() {
    let mut store = open_seeded();
    insert_fixture_item(
        &mut store,
        FixtureItem {
            id: "t1",
            display: "tk-1",
            title: "Ticket",
            created_seq: 1,
            ..FixtureItem::default()
        },
    )
    .unwrap();
    assert!(matches!(
        resolve_as_epic(&store, "tk-1"),
        Err(ResolveEpicError::NotAnEpic)
    ));
}

#[test]
fn resolve_as_epic_returns_not_found_for_unknown_value() {
    let store = open_seeded();
    assert!(matches!(
        resolve_as_epic(&store, "missing"),
        Err(ResolveEpicError::NotFound)
    ));
}

fn show_seed_ticket(store: &mut Store, id: &str, display: &str, title: &str, created_seq: i64) {
    insert_fixture_item(
        store,
        FixtureItem {
            id,
            display,
            title,
            created_seq,
            ..FixtureItem::default()
        },
    )
    .unwrap();
}

fn show_seed_epic(store: &mut Store, id: &str, display: &str, created_seq: i64) {
    insert_fixture_item(
        store,
        FixtureItem {
            id,
            display,
            item_class: "epic",
            ticket_kind: None,
            priority: None,
            title: "Epic",
            created_seq,
            ..FixtureItem::default()
        },
    )
    .unwrap();
}

#[test]
fn missing_display_id_returns_none() {
    let store = open_seeded();
    assert!(show_item(&store, "nope").is_none());
}

#[test]
fn ticket_detail_includes_kind_and_priority() {
    let mut store = open_seeded();
    show_seed_ticket(&mut store, "t1", "tk-1", "Ship it", 1);
    let item = show_item(&store, "tk-1").unwrap();
    assert_eq!(item.display_id, "tk-1");
    assert_eq!(item.item_class, ItemClass::Ticket);
    assert_eq!(item.ticket_kind, Some(TicketKind::Task));
    assert_eq!(item.priority, Some(Priority::P2));
    assert_eq!(item.selection_state, Some(SelectionState::Accepted));
    assert_eq!(item.status, ItemStatus::Open);
    assert!(item.parent.is_none());
    assert!(item.children.is_empty());
    assert!(item.blocked_by.is_empty());
    assert!(item.blocking.is_empty());
    assert!(item.external_blockers.is_empty());
}

#[test]
fn epic_detail_lists_children_in_creation_order() {
    let mut store = open_seeded();
    show_seed_epic(&mut store, "epic", "tk-1", 1);
    insert_fixture_item(
        &mut store,
        FixtureItem {
            id: "child-a",
            display: "tk-2",
            title: "A",
            container_id: Some("epic"),
            created_seq: 2,
            ..FixtureItem::default()
        },
    )
    .unwrap();
    insert_fixture_item(
        &mut store,
        FixtureItem {
            id: "child-b",
            display: "tk-3",
            title: "B",
            container_id: Some("epic"),
            created_seq: 3,
            ..FixtureItem::default()
        },
    )
    .unwrap();

    let epic = show_item(&store, "tk-1").unwrap();
    assert_eq!(epic.item_class, ItemClass::Epic);
    // Epics stay outside Selection State.
    assert!(epic.selection_state.is_none());
    assert_eq!(
        epic.children
            .iter()
            .map(|c| c.display_id.as_str())
            .collect::<Vec<_>>(),
        vec!["tk-2", "tk-3"]
    );
}

#[test]
fn child_detail_carries_parent_summary() {
    let mut store = open_seeded();
    show_seed_epic(&mut store, "epic", "tk-1", 1);
    insert_fixture_item(
        &mut store,
        FixtureItem {
            id: "child",
            display: "tk-2",
            title: "Child",
            container_id: Some("epic"),
            created_seq: 2,
            ..FixtureItem::default()
        },
    )
    .unwrap();
    let child = show_item(&store, "tk-2").unwrap();
    let parent = child.parent.expect("parent expected");
    assert_eq!(parent.display_id, "tk-1");
    assert_eq!(parent.item_class, ItemClass::Epic);
}

#[test]
fn blocked_by_and_blocking_exclude_done_dependencies() {
    let mut store = open_seeded();
    show_seed_ticket(&mut store, "t", "tk-1", "Subject", 1);
    show_seed_ticket(&mut store, "blocker-open", "tk-2", "Open blocker", 2);
    insert_fixture_item(
        &mut store,
        FixtureItem {
            id: "blocker-done",
            display: "tk-3",
            title: "Done blocker",
            status: "done",
            created_seq: 3,
            ..FixtureItem::default()
        },
    )
    .unwrap();
    insert_dependency(&mut store, "blocker-open", "t").unwrap();
    insert_dependency(&mut store, "blocker-done", "t").unwrap();

    show_seed_ticket(&mut store, "blocked-open", "tk-4", "Open blocked", 4);
    insert_fixture_item(
        &mut store,
        FixtureItem {
            id: "blocked-done",
            display: "tk-5",
            title: "Done blocked",
            status: "done",
            created_seq: 5,
            ..FixtureItem::default()
        },
    )
    .unwrap();
    insert_dependency(&mut store, "t", "blocked-open").unwrap();
    insert_dependency(&mut store, "t", "blocked-done").unwrap();

    let detail = show_item(&store, "tk-1").unwrap();
    let blocked_by_ids: Vec<&str> = detail
        .blocked_by
        .iter()
        .map(|s| s.display_id.as_str())
        .collect();
    assert_eq!(blocked_by_ids, vec!["tk-2"]);
    let blocking_ids: Vec<&str> = detail
        .blocking
        .iter()
        .map(|s| s.display_id.as_str())
        .collect();
    assert_eq!(blocking_ids, vec!["tk-4"]);
}

#[test]
fn resolves_via_alias_to_the_canonical_display_id() {
    let mut store = open_seeded();
    show_seed_ticket(&mut store, "t", "tk-1", "Subject", 1);
    insert_alias(&mut store, "subject", "t").unwrap();
    let detail = show_item(&store, "subject").unwrap();
    assert_eq!(detail.display_id, "tk-1");
    assert_eq!(detail.title, "Subject");
}

#[test]
fn external_blockers_show_only_unresolved() {
    let mut store = open_seeded();
    show_seed_ticket(&mut store, "t", "tk-1", "Subject", 1);
    insert_external_blocker(&mut store, "eb-unresolved", "t", None).unwrap();
    insert_external_blocker(
        &mut store,
        "eb-resolved",
        "t",
        Some("2026-05-10T00:00:00.000Z"),
    )
    .unwrap();
    let detail = show_item(&store, "tk-1").unwrap();
    let reasons: Vec<&str> = detail
        .external_blockers
        .iter()
        .map(|eb| eb.reason.as_str())
        .collect();
    assert_eq!(reasons, vec!["fixture blocker"]);
}

fn list_seed_ticket(store: &mut Store, id: &str, display: &str, status: &str, created_seq: i64) {
    insert_fixture_item(
        store,
        FixtureItem {
            id,
            display,
            title: id,
            status,
            created_seq,
            ..FixtureItem::default()
        },
    )
    .unwrap();
}

fn list_seed_epic(store: &mut Store, id: &str, display: &str, status: &str, created_seq: i64) {
    insert_fixture_item(
        store,
        FixtureItem {
            id,
            display,
            item_class: "epic",
            ticket_kind: None,
            priority: None,
            title: id,
            status,
            created_seq,
            ..FixtureItem::default()
        },
    )
    .unwrap();
}

fn list_display_ids(rows: &[ListRow]) -> Vec<&str> {
    rows.iter().map(|r| r.display_id.as_str()).collect()
}

fn list_seed_mutation(
    store: &mut Store,
    sequence: i64,
    item_id: &str,
    item_class: &str,
    mutation_type: &str,
    state: &str,
) {
    insert_fixture_mutation(
        store,
        FixtureMutation {
            sequence,
            mutation_type,
            item_id,
            item_class,
            state,
            failure_json: (state == "failed").then_some(r#"{"detail":"prior"}"#),
            ..FixtureMutation::default()
        },
    )
    .unwrap();
}

#[test]
fn default_view_returns_open_and_active_items() {
    let mut store = open_seeded();
    list_seed_ticket(&mut store, "open-t", "tk-1", "open", 1);
    list_seed_ticket(&mut store, "active-t", "tk-2", "active", 2);
    list_seed_ticket(&mut store, "done-t", "tk-3", "done", 3);
    let rows = list_rows(&store, ListOptions::default());
    assert_eq!(list_display_ids(&rows), vec!["tk-1", "tk-2"]);
}

#[test]
fn ready_excludes_tickets_with_unresolved_dependencies() {
    let mut store = open_seeded();
    list_seed_ticket(&mut store, "ready", "tk-1", "open", 1);
    list_seed_ticket(&mut store, "blocked-dep", "tk-2", "open", 2);
    list_seed_epic(&mut store, "open-blocker", "tk-3", "open", 3);
    insert_dependency(&mut store, "open-blocker", "blocked-dep").unwrap();

    let rows = list_rows(
        &store,
        ListOptions {
            view: ListView::Ready,
            ..ListOptions::default()
        },
    );
    assert_eq!(list_display_ids(&rows), vec!["tk-1"]);
}

#[test]
fn ready_excludes_tickets_with_unresolved_external_blockers() {
    let mut store = open_seeded();
    list_seed_ticket(&mut store, "ready", "tk-1", "open", 1);
    list_seed_ticket(&mut store, "blocked-ext", "tk-2", "open", 2);
    insert_external_blocker(&mut store, "eb1", "blocked-ext", None).unwrap();

    let rows = list_rows(
        &store,
        ListOptions {
            view: ListView::Ready,
            ..ListOptions::default()
        },
    );
    assert_eq!(list_display_ids(&rows), vec!["tk-1"]);
}

#[test]
fn resolved_blockers_do_not_count() {
    let mut store = open_seeded();
    list_seed_ticket(&mut store, "ticket", "tk-1", "open", 1);
    list_seed_epic(&mut store, "done-blocker", "tk-2", "done", 2);
    insert_dependency(&mut store, "done-blocker", "ticket").unwrap();

    let rows = list_rows(
        &store,
        ListOptions {
            view: ListView::Ready,
            ..ListOptions::default()
        },
    );
    assert_eq!(list_display_ids(&rows), vec!["tk-1"]);
}

#[test]
fn blocked_view_surfaces_tickets_with_any_unresolved_blocker() {
    let mut store = open_seeded();
    list_seed_ticket(&mut store, "ready", "tk-1", "open", 1);
    list_seed_ticket(&mut store, "blocked-dep", "tk-2", "open", 2);
    list_seed_epic(&mut store, "open-blocker", "tk-3", "open", 3);
    insert_dependency(&mut store, "open-blocker", "blocked-dep").unwrap();
    list_seed_ticket(&mut store, "blocked-ext", "tk-4", "open", 4);
    insert_external_blocker(&mut store, "eb", "blocked-ext", None).unwrap();

    let rows = list_rows(
        &store,
        ListOptions {
            view: ListView::Blocked,
            ..ListOptions::default()
        },
    );
    assert_eq!(list_display_ids(&rows), vec!["tk-2", "tk-4"]);
}

#[test]
fn ready_includes_parent_epic_when_one_child_is_ready() {
    let mut store = open_seeded();
    list_seed_epic(&mut store, "epic", "tk-1", "open", 1);
    insert_fixture_item(
        &mut store,
        FixtureItem {
            id: "child",
            display: "tk-2",
            title: "Child",
            container_id: Some("epic"),
            created_seq: 2,
            ..FixtureItem::default()
        },
    )
    .unwrap();
    let rows = list_rows(
        &store,
        ListOptions {
            view: ListView::Ready,
            ..ListOptions::default()
        },
    );
    assert!(list_display_ids(&rows).contains(&"tk-1"));
    assert!(list_display_ids(&rows).contains(&"tk-2"));
}

#[test]
fn ready_view_still_surfaces_a_done_epic_parent() {
    let mut store = open_seeded();
    list_seed_epic(&mut store, "epic", "tk-1", "done", 1);
    insert_fixture_item(
        &mut store,
        FixtureItem {
            id: "child",
            display: "tk-2",
            title: "Child",
            container_id: Some("epic"),
            created_seq: 2,
            ..FixtureItem::default()
        },
    )
    .unwrap();
    let rows = list_rows(
        &store,
        ListOptions {
            view: ListView::Ready,
            ..ListOptions::default()
        },
    );
    assert!(list_display_ids(&rows).contains(&"tk-1"));
    assert!(list_display_ids(&rows).contains(&"tk-2"));
}

#[test]
fn origin_local_filter_excludes_backend_rows() {
    let mut store = open_seeded();
    list_seed_ticket(&mut store, "local", "tk-1", "open", 1);
    insert_fixture_item(
        &mut store,
        FixtureItem {
            id: "backend",
            display: "tk-2",
            title: "Backend",
            origin: "backend",
            backend_kind: Some("github"),
            backend_key: Some("99"),
            created_seq: 2,
            ..FixtureItem::default()
        },
    )
    .unwrap();
    let rows = list_rows(
        &store,
        ListOptions {
            origin: ListOriginFilter::Local,
            ..ListOptions::default()
        },
    );
    assert_eq!(list_display_ids(&rows), vec!["tk-1"]);
}

#[test]
fn epic_class_filter_returns_only_epics() {
    let mut store = open_seeded();
    list_seed_epic(&mut store, "epic", "tk-1", "open", 1);
    list_seed_ticket(&mut store, "ticket", "tk-2", "open", 2);
    let rows = list_rows(
        &store,
        ListOptions {
            class: ListClassFilter::Epic,
            ..ListOptions::default()
        },
    );
    assert_eq!(list_display_ids(&rows), vec!["tk-1"]);
}

#[test]
fn epic_class_filter_keeps_parent_epic_in_ready_view() {
    // The epic-parent-inclusion branch surfaces an Epic whose child is
    // ready; the class filter drops the child Ticket but keeps the Epic,
    // so `--ready --epic` answers "which Epics contain ready work?".
    let mut store = open_seeded();
    list_seed_epic(&mut store, "epic", "tk-1", "open", 1);
    insert_fixture_item(
        &mut store,
        FixtureItem {
            id: "child",
            display: "tk-2",
            title: "Child",
            container_id: Some("epic"),
            created_seq: 2,
            ..FixtureItem::default()
        },
    )
    .unwrap();
    let rows = list_rows(
        &store,
        ListOptions {
            view: ListView::Ready,
            class: ListClassFilter::Epic,
            ..ListOptions::default()
        },
    );
    assert_eq!(list_display_ids(&rows), vec!["tk-1"]);
}

#[test]
fn ready_epic_origin_filter_applies_to_child_subquery() {
    // The epic-parent-inclusion branch re-applies the Origin filter to the
    // child (`child.origin = ?2`), so under `--ready --epic --local` a Local
    // Epic surfaces only when it has a ready *Local* child — not merely any
    // ready child. Both Epics here are Local (they pass the parent Origin
    // filter); they differ only in the Origin of their ready child.
    let mut store = open_seeded();
    list_seed_epic(&mut store, "epic-local-child", "tk-1", "open", 1);
    insert_fixture_item(
        &mut store,
        FixtureItem {
            id: "local-child",
            display: "tk-2",
            title: "Local child",
            container_id: Some("epic-local-child"),
            created_seq: 2,
            ..FixtureItem::default()
        },
    )
    .unwrap();
    list_seed_epic(&mut store, "epic-backend-child", "tk-3", "open", 3);
    insert_fixture_item(
        &mut store,
        FixtureItem {
            id: "backend-child",
            display: "tk-4",
            title: "Backend child",
            origin: "backend",
            backend_kind: Some("github"),
            backend_key: Some("99"),
            container_id: Some("epic-backend-child"),
            created_seq: 4,
            ..FixtureItem::default()
        },
    )
    .unwrap();

    let rows = list_rows(
        &store,
        ListOptions {
            view: ListView::Ready,
            class: ListClassFilter::Epic,
            origin: ListOriginFilter::Local,
            scope: None,
        },
    );
    assert_eq!(list_display_ids(&rows), vec!["tk-1"]);
}

#[test]
fn scope_confines_rows_to_the_epic_and_its_children() {
    let mut store = open_seeded();
    list_seed_epic(&mut store, "epic", "tk-1", "open", 1);
    insert_fixture_item(
        &mut store,
        FixtureItem {
            id: "child",
            display: "tk-2",
            title: "Child",
            container_id: Some("epic"),
            created_seq: 2,
            ..FixtureItem::default()
        },
    )
    .unwrap();
    // An unrelated Epic and a top-level Ticket must be excluded.
    list_seed_epic(&mut store, "other-epic", "tk-3", "open", 3);
    list_seed_ticket(&mut store, "loose", "tk-4", "open", 4);

    let rows = list_rows(
        &store,
        ListOptions {
            scope: Some("epic"),
            ..ListOptions::default()
        },
    );
    assert_eq!(list_display_ids(&rows), vec!["tk-1", "tk-2"]);
}

fn list_seed_triage(store: &mut Store, id: &str, display: &str, created_seq: i64) {
    insert_fixture_item(
        store,
        FixtureItem {
            id,
            display,
            title: id,
            priority: None,
            selection_state: Some("triage"),
            created_seq,
            ..FixtureItem::default()
        },
    )
    .unwrap();
}

#[test]
fn ready_excludes_triage_tickets() {
    let mut store = open_seeded();
    list_seed_ticket(&mut store, "accepted", "tk-1", "open", 1);
    list_seed_triage(&mut store, "triage", "tk-2", 2);
    let rows = list_rows(
        &store,
        ListOptions {
            view: ListView::Ready,
            ..ListOptions::default()
        },
    );
    assert_eq!(list_display_ids(&rows), vec!["tk-1"]);
}

#[test]
fn triage_view_shows_only_triage_tickets() {
    let mut store = open_seeded();
    list_seed_ticket(&mut store, "accepted", "tk-1", "open", 1);
    list_seed_triage(&mut store, "triage", "tk-2", 2);
    let rows = list_rows(
        &store,
        ListOptions {
            view: ListView::Triage,
            ..ListOptions::default()
        },
    );
    assert_eq!(list_display_ids(&rows), vec!["tk-2"]);
}

fn list_seed_parked(store: &mut Store, id: &str, display: &str, created_seq: i64) {
    insert_fixture_item(
        store,
        FixtureItem {
            id,
            display,
            title: id,
            selection_state: Some("parked"),
            created_seq,
            ..FixtureItem::default()
        },
    )
    .unwrap();
}

#[test]
fn ready_excludes_parked_tickets() {
    let mut store = open_seeded();
    list_seed_ticket(&mut store, "accepted", "tk-1", "open", 1);
    list_seed_parked(&mut store, "parked", "tk-2", 2);
    let rows = list_rows(
        &store,
        ListOptions {
            view: ListView::Ready,
            ..ListOptions::default()
        },
    );
    assert_eq!(list_display_ids(&rows), vec!["tk-1"]);
}

#[test]
fn parked_view_shows_only_parked_tickets() {
    let mut store = open_seeded();
    list_seed_ticket(&mut store, "accepted", "tk-1", "open", 1);
    list_seed_triage(&mut store, "triage", "tk-2", 2);
    list_seed_parked(&mut store, "parked", "tk-3", 3);
    let rows = list_rows(
        &store,
        ListOptions {
            view: ListView::Parked,
            ..ListOptions::default()
        },
    );
    assert_eq!(list_display_ids(&rows), vec!["tk-3"]);
}

#[test]
fn blocked_includes_parked_with_unresolved_blocker() {
    let mut store = open_seeded();
    list_seed_parked(&mut store, "parked", "tk-1", 1);
    list_seed_epic(&mut store, "blocker", "tk-2", "open", 2);
    insert_dependency(&mut store, "blocker", "parked").unwrap();
    let rows = list_rows(
        &store,
        ListOptions {
            view: ListView::Blocked,
            ..ListOptions::default()
        },
    );
    assert_eq!(list_display_ids(&rows), vec!["tk-1"]);
}

#[test]
fn blocked_excludes_triage_but_keeps_accepted() {
    let mut store = open_seeded();
    // A blocked accepted Ticket and a blocked triage Ticket; only the
    // accepted one belongs in the blocked view.
    list_seed_ticket(&mut store, "accepted", "tk-1", "open", 1);
    list_seed_triage(&mut store, "triage", "tk-2", 2);
    list_seed_epic(&mut store, "blocker", "tk-3", "open", 3);
    insert_dependency(&mut store, "blocker", "accepted").unwrap();
    insert_dependency(&mut store, "blocker", "triage").unwrap();
    let rows = list_rows(
        &store,
        ListOptions {
            view: ListView::Blocked,
            ..ListOptions::default()
        },
    );
    assert_eq!(list_display_ids(&rows), vec!["tk-1"]);
}

#[test]
fn active_view_surfaces_only_active_status_rows() {
    let mut store = open_seeded();
    list_seed_ticket(&mut store, "open-t", "tk-1", "open", 1);
    list_seed_ticket(&mut store, "active-t", "tk-2", "active", 2);
    list_seed_ticket(&mut store, "done-t", "tk-3", "done", 3);
    let rows = list_rows(
        &store,
        ListOptions {
            view: ListView::Active,
            ..ListOptions::default()
        },
    );
    assert_eq!(list_display_ids(&rows), vec!["tk-2"]);
}

#[test]
fn every_view_variant_has_a_case_arm_in_sql() {
    let store = open_seeded();
    for view in [
        ListView::Default,
        ListView::Ready,
        ListView::Blocked,
        ListView::Active,
        ListView::Triage,
        ListView::Parked,
    ] {
        let rows = list_rows(&store, ListOptions { view, ..ListOptions::default() });
        assert!(rows.is_empty(), "variant {view:?}");
    }
}

#[test]
fn every_mutation_state_drives_the_pending_and_failed_flags() {
    let mut store = open_seeded();
    let mut expected = Vec::new();
    for (i, state) in ALL_STATES.into_iter().enumerate() {
        let seq = i64::try_from(i).unwrap() + 1;
        let (mutation_type, expect_pending, expect_failed) = match state {
            MutationState::Pending => ("update_ticket", true, false),
            MutationState::Failed => ("update_ticket", false, true),
            MutationState::Applied | MutationState::Skipped | MutationState::Cancelled => {
                ("update_ticket", false, false)
            }
            MutationState::Applying | MutationState::Abandoned => {
                ("promote_ticket", false, false)
            }
        };
        let item_id = state.text();
        list_seed_ticket(&mut store, item_id, &format!("tk-{seq}"), "open", seq);
        list_seed_mutation(&mut store, seq, item_id, "ticket", mutation_type, state.text());
        expected.push((state, mutation_type, expect_pending, expect_failed));
    }

    let rows = list_rows(&store, ListOptions::default());
    for (state, mutation_type, expect_pending, expect_failed) in expected {
        let row = rows.iter().find(|r| r.id == state.text()).unwrap();
        assert_eq!(
            row.has_pending_mutation, expect_pending,
            "state={state:?} type={mutation_type}"
        );
        assert_eq!(
            row.has_failed_mutation, expect_failed,
            "state={state:?} type={mutation_type}"
        );
    }
}

#[test]
fn every_promotion_mutation_type_is_excluded_from_the_flags() {
    let mut store = open_seeded();
    list_seed_ticket(&mut store, "t", "tk-1", "open", 1);
    list_seed_epic(&mut store, "e", "tk-2", "open", 2);

    let promotions: Vec<MutationType> = ALL_TYPES
        .into_iter()
        .filter(|t| t.is_promotion())
        .collect();
    assert!(!promotions.is_empty(), "no Promotion types to check");

    let mut seq = 0;
    for mutation_type in promotions {
        let (item_id, item_class) = match mutation_type {
            MutationType::PromoteTicket => ("t", "ticket"),
            MutationType::PromoteEpic => ("e", "epic"),
            other => panic!(
                "new Promotion type {} needs a fixture target Item here",
                other.text()
            ),
        };
        for state in ["pending", "failed"] {
            seq += 1;
            list_seed_mutation(
                &mut store,
                seq,
                item_id,
                item_class,
                mutation_type.text(),
                state,
            );
        }
    }

    let rows = list_rows(&store, ListOptions::default());
    for row in &rows {
        assert!(
            !row.has_pending_mutation && !row.has_failed_mutation,
            "{} lit a marker from a Promotion alone",
            row.display_id
        );
    }
}

#[test]
fn pending_promotion_with_a_later_edit_sets_pending() {
    // `is_backend_bound()` is true for a Pending Promotion, so nothing
    // filters this Local Item's later edit out — it is unsent work
    // exactly as pending as one queued behind a Backend Item.
    let mut store = open_seeded();
    list_seed_ticket(&mut store, "t1", "tk-1", "open", 1);
    list_seed_mutation(&mut store, 1, "t1", "ticket", "promote_ticket", "pending");
    list_seed_mutation(&mut store, 2, "t1", "ticket", "set_item_status", "pending");
    let rows = list_rows(&store, ListOptions::default());
    assert_eq!(rows.len(), 1);
    assert!(rows[0].has_pending_mutation);
    assert!(!rows[0].has_failed_mutation);
}

#[test]
fn epic_with_its_own_failed_mutation_reports_failed() {
    let mut store = open_seeded();
    list_seed_epic(&mut store, "e1", "tk-1", "open", 1);
    list_seed_mutation(&mut store, 1, "e1", "epic", "update_epic", "failed");
    let rows = list_rows(&store, ListOptions::default());
    assert_eq!(rows.len(), 1);
    assert!(rows[0].has_failed_mutation);
    assert!(!rows[0].has_pending_mutation);
}

#[test]
fn epic_parent_does_not_inherit_a_childs_pending_mutation() {
    // The flag is per-Item, not a subtree rollup: a child's unsent edit
    // must not make the parent Epic's own row look unsent.
    let mut store = open_seeded();
    list_seed_epic(&mut store, "epic", "tk-1", "open", 1);
    insert_fixture_item(
        &mut store,
        FixtureItem {
            id: "child",
            display: "tk-2",
            title: "Child",
            container_id: Some("epic"),
            created_seq: 2,
            ..FixtureItem::default()
        },
    )
    .unwrap();
    list_seed_mutation(&mut store, 1, "child", "ticket", "update_ticket", "pending");
    let rows = list_rows(&store, ListOptions::default());
    let epic_row = rows.iter().find(|r| r.id == "epic").unwrap();
    assert!(!epic_row.has_pending_mutation);
    assert!(!epic_row.has_failed_mutation);
}

fn search_seed_ticket(store: &mut Store, id: &str, display: &str, title: &str, status: &str, seq: i64) {
    insert_fixture_item(
        store,
        FixtureItem {
            id,
            display,
            title,
            status,
            created_seq: seq,
            ..FixtureItem::default()
        },
    )
    .unwrap();
}

fn search_seed_epic(store: &mut Store, id: &str, display: &str, title: &str, status: &str, seq: i64) {
    insert_fixture_item(
        store,
        FixtureItem {
            id,
            display,
            item_class: "epic",
            ticket_kind: None,
            priority: None,
            title,
            status,
            created_seq: seq,
            ..FixtureItem::default()
        },
    )
    .unwrap();
}

fn search_seed_mutation(
    store: &mut Store,
    sequence: i64,
    item_id: &str,
    mutation_type: &str,
    state: &str,
) {
    insert_fixture_mutation(
        store,
        FixtureMutation {
            sequence,
            mutation_type,
            item_id,
            item_class: "ticket",
            state,
            failure_json: (state == "failed").then_some(r#"{"detail":"prior"}"#),
            ..FixtureMutation::default()
        },
    )
    .unwrap();
}

fn search_display_ids(rows: &[ListRow]) -> Vec<&str> {
    rows.iter().map(|r| r.display_id.as_str()).collect()
}

#[test]
fn matches_title_substring() {
    let mut store = open_seeded();
    search_seed_ticket(&mut store, "t1", "tk-1", "Fix the flaky test", "open", 1);
    search_seed_ticket(&mut store, "t2", "tk-2", "Unrelated chore", "open", 2);
    let rows = search_rows(&store, "flaky");
    assert_eq!(search_display_ids(&rows), vec!["tk-1"]);
}

#[test]
fn match_is_case_insensitive() {
    let mut store = open_seeded();
    search_seed_ticket(&mut store, "t1", "tk-1", "Fix the FLAKY test", "open", 1);
    let rows = search_rows(&store, "flaky");
    assert_eq!(search_display_ids(&rows), vec!["tk-1"]);
}

#[test]
fn matches_both_tickets_and_epics() {
    let mut store = open_seeded();
    search_seed_epic(&mut store, "e1", "tk-1", "Auth rework", "open", 1);
    search_seed_ticket(&mut store, "t1", "tk-2", "Add auth middleware", "open", 2);
    search_seed_ticket(&mut store, "t2", "tk-3", "Unrelated chore", "open", 3);
    let rows = search_rows(&store, "auth");
    assert_eq!(search_display_ids(&rows), vec!["tk-1", "tk-2"]);
}

#[test]
fn includes_every_item_status() {
    let mut store = open_seeded();
    search_seed_ticket(&mut store, "t1", "tk-1", "Auth open", "open", 1);
    search_seed_ticket(&mut store, "t2", "tk-2", "Auth active", "active", 2);
    search_seed_ticket(&mut store, "t3", "tk-3", "Auth done", "done", 3);
    let rows = search_rows(&store, "auth");
    assert_eq!(search_display_ids(&rows), vec!["tk-1", "tk-2", "tk-3"]);
}

#[test]
fn orders_by_created_seq_ascending() {
    let mut store = open_seeded();
    search_seed_ticket(&mut store, "t2", "tk-2", "Auth second", "open", 2);
    search_seed_ticket(&mut store, "t1", "tk-1", "Auth first", "open", 1);
    search_seed_ticket(&mut store, "t3", "tk-3", "Auth third", "open", 3);
    let rows = search_rows(&store, "auth");
    assert_eq!(search_display_ids(&rows), vec!["tk-1", "tk-2", "tk-3"]);
}

#[test]
fn query_is_a_literal_substring_not_a_wildcard() {
    let mut store = open_seeded();
    search_seed_ticket(&mut store, "t1", "tk-1", "Migrate 50% of traffic", "open", 1);
    search_seed_ticket(&mut store, "t2", "tk-2", "Migrate 50 of traffic", "open", 2);
    let rows = search_rows(&store, "50%");
    assert_eq!(search_display_ids(&rows), vec!["tk-1"]);
}

#[test]
fn no_match_returns_empty() {
    let mut store = open_seeded();
    search_seed_ticket(&mut store, "t1", "tk-1", "Auth rework", "open", 1);
    let rows = search_rows(&store, "nonexistent");
    assert!(rows.is_empty());
}

#[test]
fn done_match_still_reports_its_unresolved_blocker() {
    let mut store = open_seeded();
    search_seed_ticket(
        &mut store,
        "t1",
        "tk-1",
        "Auth shipped via workaround",
        "done",
        1,
    );
    insert_external_blocker(&mut store, "eb1", "t1", None).unwrap();
    let rows = search_rows(&store, "auth");
    assert_eq!(rows.len(), 1);
    assert!(rows[0].has_unresolved_blocker);
}

#[test]
fn done_match_still_reports_its_pending_mutation() {
    let mut store = open_seeded();
    search_seed_ticket(
        &mut store,
        "t1",
        "tk-1",
        "Auth shipped via workaround",
        "done",
        1,
    );
    insert_fixture_mutation(
        &mut store,
        FixtureMutation {
            sequence: 1,
            mutation_type: "set_item_status",
            item_id: "t1",
            item_class: "ticket",
            state: "pending",
            ..FixtureMutation::default()
        },
    )
    .unwrap();
    let rows = search_rows(&store, "auth");
    assert_eq!(rows.len(), 1);
    assert!(rows[0].has_pending_mutation);
    assert!(!rows[0].has_failed_mutation);
}

#[test]
fn search_rows_and_list_rows_agree_on_mutation_flags() {
    let mut store = open_seeded();
    search_seed_ticket(&mut store, "pending-edit", "tk-1", "Auth pending", "open", 1);
    search_seed_ticket(&mut store, "failed-edit", "tk-2", "Auth failed", "open", 2);
    search_seed_ticket(&mut store, "promo-only", "tk-3", "Auth promoted", "open", 3);
    search_seed_mutation(&mut store, 1, "pending-edit", "update_ticket", "pending");
    search_seed_mutation(&mut store, 2, "failed-edit", "update_ticket", "failed");
    search_seed_mutation(&mut store, 3, "promo-only", "promote_ticket", "pending");
    search_seed_mutation(&mut store, 4, "promo-only", "promote_ticket", "failed");

    let search = search_rows(&store, "auth");
    let list = list_rows(&store, ListOptions::default());
    assert_eq!(search.len(), 3);
    assert_eq!(list.len(), 3);

    // Pin the values too, so the comparison cannot pass by both sides
    // being uniformly wrong.
    let flags = |rows: &[ListRow], id: &str| {
        let row = rows.iter().find(|r| r.id == id).unwrap();
        (row.has_pending_mutation, row.has_failed_mutation)
    };
    assert_eq!(flags(&search, "pending-edit"), (true, false));
    assert_eq!(flags(&search, "failed-edit"), (false, true));
    assert_eq!(flags(&search, "promo-only"), (false, false));

    for row in &search {
        assert_eq!(
            flags(&search, &row.id),
            flags(&list, &row.id),
            "search and list disagree on {}: the two hand-mirrored \
             subqueries have drifted",
            row.display_id
        );
    }
}

fn next_seed(store: &mut Store, id: &str, display: &str, priority: &str, created_seq: i64) {
    insert_fixture_item(
        store,
        FixtureItem {
            id,
            display,
            title: id,
            priority: Some(priority),
            created_seq,
            ..FixtureItem::default()
        },
    )
    .unwrap();
}

#[test]
fn returns_no_ready_ticket_for_empty_store() {
    let store = open_seeded();
    assert_eq!(
        next_ready_ticket(&store, NextOptions::default()).unwrap(),
        None
    );
}

#[test]
fn picks_highest_priority_first() {
    let mut store = open_seeded();
    next_seed(&mut store, "low", "tk-1", "P3", 1);
    next_seed(&mut store, "high", "tk-2", "P0", 2);
    let ticket = next_ready_ticket(&store, NextOptions::default())
        .unwrap()
        .expect("a ready ticket");
    assert_eq!(ticket.display_id, "tk-2");
}

#[test]
fn breaks_priority_ties_by_creation_order() {
    let mut store = open_seeded();
    next_seed(&mut store, "second", "tk-1", "P1", 2);
    next_seed(&mut store, "first", "tk-2", "P1", 1);
    let ticket = next_ready_ticket(&store, NextOptions::default())
        .unwrap()
        .expect("a ready ticket");
    assert_eq!(ticket.display_id, "tk-2");
}

#[test]
fn skips_tickets_with_unresolved_dependencies() {
    // `blocked` (tk-1) is the dependency target, so it must not appear
    // in the ready set. The blocker (tk-3) inherits priority P4 from
    // its blocked target — same as its own — so it does not outrank
    // `ready` (tk-2, P2) via Effective Priority. tk-2 should win.
    let mut store = open_seeded();
    next_seed(&mut store, "blocked", "tk-1", "P4", 1);
    next_seed(&mut store, "ready", "tk-2", "P2", 2);
    next_seed(&mut store, "blocker", "tk-3", "P4", 3);
    insert_dependency(&mut store, "blocker", "blocked").unwrap();

    let ticket = next_ready_ticket(&store, NextOptions::default())
        .unwrap()
        .expect("a ready ticket");
    assert_eq!(ticket.display_id, "tk-2");
}

#[test]
fn effective_priority_promotes_a_ticket_when_a_blocked_one_outranks_it() {
    let mut store = open_seeded();
    // blocked has high priority, can't be picked, but its blocker
    // inherits the higher priority via Effective Priority.
    next_seed(&mut store, "blocker", "tk-1", "P3", 1);
    next_seed(&mut store, "blocked-high", "tk-2", "P0", 2);
    insert_dependency(&mut store, "blocker", "blocked-high").unwrap();
    next_seed(&mut store, "ready", "tk-3", "P1", 3);

    let ticket = next_ready_ticket(&store, NextOptions::default())
        .unwrap()
        .expect("a ready ticket");
    // Effective Priority of `blocker` is P0 (inherited via `blocked-high`),
    // so it sorts ahead of `ready` (P1, own = effective).
    assert_eq!(ticket.display_id, "tk-1");
    let rationale = ticket.rationale.expect("rationale required");
    assert_eq!(rationale.effective_priority, "P0");
    assert_eq!(rationale.blocked_display_id, "tk-2");
}

fn next_seed_epic(store: &mut Store, id: &str, display: &str, created_seq: i64) {
    insert_fixture_item(
        store,
        FixtureItem {
            id,
            display,
            item_class: "epic",
            ticket_kind: None,
            priority: None,
            title: id,
            created_seq,
            ..FixtureItem::default()
        },
    )
    .unwrap();
}

fn next_seed_child(
    store: &mut Store,
    id: &str,
    display: &str,
    priority: &str,
    epic: &str,
    created_seq: i64,
) {
    insert_fixture_item(
        store,
        FixtureItem {
            id,
            display,
            title: id,
            priority: Some(priority),
            container_id: Some(epic),
            created_seq,
            ..FixtureItem::default()
        },
    )
    .unwrap();
}

#[test]
fn epic_scope_only_considers_that_epics_children() {
    let mut store = open_seeded();
    next_seed_epic(&mut store, "epic", "tk-1", 1);
    next_seed_child(&mut store, "child", "tk-2", "P3", "epic", 2);
    // A higher-priority Ticket outside the Epic must be ignored.
    next_seed(&mut store, "outside", "tk-3", "P0", 3);

    let ticket = next_ready_ticket(
        &store,
        NextOptions {
            scope: NextScope::Epic("epic"),
        },
    )
    .unwrap()
    .expect("a ready ticket");
    assert_eq!(ticket.display_id, "tk-2");
}

#[test]
fn epic_scope_returns_no_ready_when_every_child_is_blocked() {
    let mut store = open_seeded();
    next_seed_epic(&mut store, "epic", "tk-1", 1);
    next_seed_child(&mut store, "child", "tk-2", "P1", "epic", 2);
    next_seed(&mut store, "blocker", "tk-3", "P4", 3);
    insert_dependency(&mut store, "blocker", "child").unwrap();
    let outcome = next_ready_ticket(
        &store,
        NextOptions {
            scope: NextScope::Epic("epic"),
        },
    )
    .unwrap();
    assert_eq!(outcome, None);
}

#[test]
fn rationale_is_absent_when_own_priority_equals_effective_priority() {
    let mut store = open_seeded();
    next_seed(&mut store, "ready", "tk-1", "P1", 1);
    let ticket = next_ready_ticket(&store, NextOptions::default())
        .unwrap()
        .expect("a ready ticket");
    assert_eq!(ticket.display_id, "tk-1");
    assert!(ticket.rationale.is_none());
}

#[test]
fn effective_priority_propagates_through_a_transitive_blocked_by_chain() {
    // ready P3 -> mid P3 -> tail P0. Through transitive deps, the ready
    // candidate inherits min priority P0.
    let mut store = open_seeded();
    next_seed(&mut store, "ready", "tk-1", "P3", 1);
    next_seed(&mut store, "mid", "tk-2", "P3", 2);
    next_seed(&mut store, "tail", "tk-3", "P0", 3);
    insert_dependency(&mut store, "ready", "mid").unwrap();
    insert_dependency(&mut store, "mid", "tail").unwrap();

    let ticket = next_ready_ticket(&store, NextOptions::default())
        .unwrap()
        .expect("a ready ticket");
    assert_eq!(ticket.display_id, "tk-1");
    let rationale = ticket.rationale.expect("multi-hop rationale required");
    assert_eq!(rationale.effective_priority, "P0");
    assert_eq!(rationale.blocked_display_id, "tk-3");
}

const ALL_STATES: [MutationState; 7] = [
    MutationState::Pending,
    MutationState::Applying,
    MutationState::Applied,
    MutationState::Failed,
    MutationState::Skipped,
    MutationState::Cancelled,
    MutationState::Abandoned,
];

const ALL_TYPES: [MutationType; 9] = [
    MutationType::UpdateTicket,
    MutationType::UpdateEpic,
    MutationType::AddTicketToEpic,
    MutationType::RemoveTicketFromEpic,
    MutationType::SetItemStatus,
    MutationType::AddDependency,
    MutationType::RemoveDependency,
    MutationType::PromoteTicket,
    MutationType::PromoteEpic,
];
