//! Operations that change the store.

use rand::rngs::StdRng;
use rand::SeedableRng;
use tk_store::domain::{
    BackendKind, ItemClass, ItemStatus, Lifecycle, MutationState, MutationType, Origin, Priority,
    SelectionState, TicketKind, WorkState,
};
use tk_store::payload::{MutationPayload, Promotion};
use tk_store::promotion::{commit_operation, MutationDraft, PromotionPlan};
use tk_store::repository::create::{
    create_local_epic, create_local_ticket, CreateLocalEpicInput, CreateLocalTicketInput,
};
use tk_store::repository::dependency::{
    add_dependency, remove_dependency, AddDependencyError, DependencyEdge,
};
use tk_store::repository::resolve_item_ref;
use tk_store::repository::selection::{accept_ticket, AcceptError, AcceptOutcome};
use tk_store::repository::status::{close_item, SetStatusError};
use tk_store::repository::update::{update_item, ParentOp, UpdateError, UpdateRequest};
use tk_store::repository::work_state::{set_work_state, SetWorkStateError};
use tk_store::rows::{Alias, Dependency, ExternalBlocker, Item, Mutation};
use tk_store::tables::{Counter, Fault, Store};

/// The time of every change that a test makes, unless it says otherwise.
#[allow(dead_code)]
const NOW: &str = "2026-05-09T00:00:00.000Z";

/// A later time.
#[allow(dead_code)]
const LATER: &str = "2030-03-17T17:46:40.000Z";

/// A fresh store: counters at zero and a Display ID prefix.
fn open_seeded() -> Store {
    let mut store = Store::new();
    store.set_counter(Counter::ItemCreated, Some(0));
    store.set_counter(Counter::Display, Some(0));
    store.set_counter(Counter::Mutation, Some(0));
    store.set_display_prefix(Some("tk".to_owned()));
    store
}

/// An Item to put into the store.
#[derive(Clone, Copy)]
struct FixtureItem<'a> {
    id: &'a str,
    display: &'a str,
    item_class: &'a str,
    ticket_kind: Option<&'a str>,
    priority: Option<&'a str>,
    selection_state: Option<&'a str>,
    title: &'a str,
    body: &'a str,
    status: &'a str,
    closing_reason: Option<&'a str>,
    container_id: Option<&'a str>,
    origin: &'a str,
    backend_kind: Option<&'a str>,
    backend_key: Option<&'a str>,
    created_seq: i64,
    created_at: &'a str,
    updated_at: &'a str,
}

impl<'a> Default for FixtureItem<'a> {
    fn default() -> Self {
        FixtureItem {
            id: "",
            display: "",
            item_class: "ticket",
            ticket_kind: Some("task"),
            priority: Some("P2"),
            selection_state: Some("accepted"),
            title: "",
            body: "",
            status: "open",
            closing_reason: None,
            container_id: None,
            origin: "local",
            backend_kind: None,
            backend_key: None,
            created_seq: 0,
            created_at: NOW,
            updated_at: NOW,
        }
    }
}

fn fixture_row(item: FixtureItem<'_>) -> Item {
    let epic = item.item_class == "epic";
    Item {
        id: item.id.to_owned(),
        display_id: item.display.to_owned(),
        display_created_at: NOW.to_owned(),
        item_class: ItemClass::parse(item.item_class).unwrap(),
        ticket_kind: item.ticket_kind.map(|t| TicketKind::parse(t).unwrap()),
        priority: item.priority.map(|t| Priority::parse(t).unwrap()),
        selection_state: if epic {
            None
        } else {
            item.selection_state.map(|t| SelectionState::parse(t).unwrap())
        },
        title: item.title.to_owned(),
        body: item.body.to_owned(),
        closing_reason: item.closing_reason.map(str::to_owned),
        lifecycle: if item.status == "done" { Lifecycle::Done } else { Lifecycle::Open },
        work_state: if item.status == "active" { WorkState::Active } else { WorkState::Idle },
        container_id: item.container_id.map(str::to_owned),
        origin: Origin::parse(item.origin).unwrap(),
        backend_kind: item.backend_kind.map(str::to_owned),
        backend_key: item.backend_key.map(str::to_owned),
        local_display_id: None,
        created_seq: item.created_seq,
        created_at: item.created_at.to_owned(),
        updated_at: item.updated_at.to_owned(),
    }
}

fn insert_fixture_item(store: &mut Store, item: FixtureItem<'_>) -> Result<(), Fault> {
    store.insert_item(fixture_row(item))
}

#[allow(dead_code)]
fn insert_alias(store: &mut Store, value: &str, item_id: &str) -> Result<(), Fault> {
    store.insert_alias(Alias {
        value: value.to_owned(),
        item_id: item_id.to_owned(),
        created_at: NOW.to_owned(),
    })
}

#[allow(dead_code)]
fn insert_dependency(store: &mut Store, blocking: &str, blocked: &str) -> Result<(), Fault> {
    store.insert_dependency(Dependency {
        blocking_id: blocking.to_owned(),
        blocked_id: blocked.to_owned(),
        created_at: NOW.to_owned(),
    })
}

#[allow(dead_code)]
fn insert_external_blocker(
    store: &mut Store,
    id: &str,
    item_id: &str,
    resolved_at: Option<&str>,
) -> Result<(), Fault> {
    store.insert_external_blocker(ExternalBlocker {
        id: id.to_owned(),
        item_id: item_id.to_owned(),
        reason: "fixture blocker".to_owned(),
        created_at: NOW.to_owned(),
        resolved_at: resolved_at.map(str::to_owned),
    })
}

/// A Mutation to put into the log.
#[derive(Clone, Copy)]
struct FixtureMutation<'a> {
    sequence: i64,
    mutation_type: &'a str,
    item_id: &'a str,
    item_class: &'a str,
    payload_json: &'a str,
    state: &'a str,
    failure_json: Option<&'a str>,
    promotion_operation_id: Option<&'a str>,
}

impl<'a> Default for FixtureMutation<'a> {
    fn default() -> Self {
        FixtureMutation {
            sequence: 1,
            mutation_type: "update_ticket",
            item_id: "",
            item_class: "ticket",
            payload_json: "{}",
            state: "pending",
            failure_json: None,
            promotion_operation_id: None,
        }
    }
}

#[allow(dead_code)]
fn insert_fixture_mutation(store: &mut Store, m: FixtureMutation<'_>) -> Result<(), Fault> {
    store.insert_mutation(Mutation {
        sequence: m.sequence,
        mutation_type: MutationType::parse(m.mutation_type).unwrap(),
        item_id: m.item_id.to_owned(),
        item_class: ItemClass::parse(m.item_class).unwrap(),
        payload_json: m.payload_json.to_owned(),
        state: MutationState::parse(m.state).unwrap(),
        failure_json: m.failure_json.map(str::to_owned),
        created_at: NOW.to_owned(),
        state_changed_at: NOW.to_owned(),
        promotion_operation_id: m.promotion_operation_id.map(str::to_owned),
    })
}

#[allow(dead_code)]
fn the_item<'a>(store: &'a Store, id: &str) -> &'a Item {
    store.item(store.find(id).unwrap())
}

#[allow(dead_code)]
fn item_axes(store: &Store, id: &str) -> (Lifecycle, WorkState) {
    let item = the_item(store, id);
    (item.lifecycle, item.work_state)
}

#[allow(dead_code)]
fn mutation_types(store: &Store) -> Vec<&'static str> {
    (0..store.mutation_count())
        .map(|i| store.mutation(i).mutation_type.text())
        .collect()
}

#[allow(dead_code)]
fn mutation_states(store: &Store) -> Vec<&'static str> {
    (0..store.mutation_count())
        .map(|i| store.mutation(i).state.text())
        .collect()
}

#[allow(dead_code)]
fn payloads(store: &Store) -> Vec<&str> {
    (0..store.mutation_count())
        .map(|i| store.mutation(i).payload_json.as_str())
        .collect()
}

#[test]
fn create_local_ticket_inserts_row_and_resolver() {
    let mut store = open_seeded();
    let mut rng = StdRng::seed_from_u64(7);

    let created = create_local_ticket(
        &mut store,
        NOW,
        &mut rng,
        CreateLocalTicketInput {
            kind: TicketKind::Task,
            priority: Priority::P1,
            parent_id: None,
            title: "Ship it",
            body: "Body text",
        },
    )
    .unwrap();

    assert_eq!(created.display_id, "tk-1");
    assert_eq!(created.kind, TicketKind::Task);
    assert_eq!(created.priority, Priority::P1);
    assert_eq!(created.status, ItemStatus::Open);
    assert_eq!(created.origin, Origin::Local);
    assert_eq!(created.title, "Ship it");
    assert_eq!(created.body, "Body text");
    assert_eq!(created.id.len(), 32);

    assert_eq!(store.item_count(), 1);
    let item = store.item(0);
    let (id, display, ticket_kind, priority, title, body, origin, status, created_seq) = (
        &item.id,
        item.display_id.as_str(),
        item.ticket_kind.unwrap().text(),
        item.priority.unwrap().text(),
        item.title.as_str(),
        item.body.as_str(),
        item.origin.text(),
        item.lifecycle.text(),
        item.created_seq,
    );
    assert_eq!(id, &created.id);
    assert_eq!(display, "tk-1");
    assert_eq!(ticket_kind, "task");
    assert_eq!(priority, "P1");
    assert_eq!(title, "Ship it");
    assert_eq!(body, "Body text");
    assert_eq!(origin, "local");
    assert_eq!(status, "open");
    assert_eq!(created_seq, 1);

    let resolved = resolve_item_ref(&store, "tk-1").unwrap();
    assert_eq!(resolved.id, created.id);
    assert_eq!(store.alias_count(), 0);
}

#[test]
fn create_local_ticket_with_parent_writes_container_columns() {
    let mut store = open_seeded();
    let mut rng = StdRng::seed_from_u64(7);

    let epic = create_local_epic(
        &mut store,
        NOW,
        &mut rng,
        CreateLocalEpicInput {
            title: "Epic",
            body: "",
        },
    )
    .unwrap();

    let ticket = create_local_ticket(
        &mut store,
        NOW,
        &mut rng,
        CreateLocalTicketInput {
            kind: TicketKind::Task,
            priority: Priority::P2,
            parent_id: Some(&epic.id),
            title: "Child",
            body: "",
        },
    )
    .unwrap();

    assert_eq!(ticket.display_id, "tk-2");
    let container_id = the_item(&store, &ticket.id).container_id.clone();
    assert_eq!(container_id.as_deref(), Some(epic.id.as_str()));
}

#[test]
fn display_ids_increment_monotonically() {
    let mut store = open_seeded();
    let mut rng = StdRng::seed_from_u64(7);

    let a = create_local_ticket(
        &mut store,
        NOW,
        &mut rng,
        CreateLocalTicketInput {
            kind: TicketKind::Task,
            priority: Priority::P2,
            parent_id: None,
            title: "A",
            body: "",
        },
    )
    .unwrap();
    let b = create_local_ticket(
        &mut store,
        NOW,
        &mut rng,
        CreateLocalTicketInput {
            kind: TicketKind::Task,
            priority: Priority::P2,
            parent_id: None,
            title: "B",
            body: "",
        },
    )
    .unwrap();
    assert_eq!(a.display_id, "tk-1");
    assert_eq!(b.display_id, "tk-2");
}

#[test]
fn create_local_epic_inserts_epic_row_with_no_priority_or_kind() {
    let mut store = open_seeded();
    let mut rng = StdRng::seed_from_u64(7);

    let epic = create_local_epic(
        &mut store,
        NOW,
        &mut rng,
        CreateLocalEpicInput {
            title: "Big work",
            body: "Multi-paragraph\nbody",
        },
    )
    .unwrap();

    assert_eq!(epic.display_id, "tk-1");
    let row = the_item(&store, &epic.id);
    let (class, ticket_kind, priority) = (row.item_class.text(), row.ticket_kind, row.priority);
    assert_eq!(class, "epic");
    assert!(ticket_kind.is_none());
    assert!(priority.is_none());
}

#[test]
fn local_creates_emit_no_mutations() {
    let mut store = open_seeded();
    let mut rng = StdRng::seed_from_u64(7);

    create_local_ticket(
        &mut store,
        NOW,
        &mut rng,
        CreateLocalTicketInput {
            kind: TicketKind::Task,
            priority: Priority::P2,
            parent_id: None,
            title: "Local",
            body: "",
        },
    )
    .unwrap();
    let mutations = store.mutation_count();
    assert_eq!(mutations, 0);
}

fn update_seed_local_ticket(store: &mut Store, id: &str, display: &str, created_seq: i64) {
    insert_fixture_item(
        store,
        FixtureItem {
            id,
            display,
            title: "Original",
            body: "Body0",
            created_seq,
            ..FixtureItem::default()
        },
    )
    .unwrap();
}

fn update_seed_backend_ticket(store: &mut Store, id: &str, display: &str, created_seq: i64) {
    insert_fixture_item(
        store,
        FixtureItem {
            id,
            display,
            title: "Original",
            body: "Body0",
            origin: "backend",
            backend_kind: Some("github"),
            backend_key: Some(display),
            created_seq,
            ..FixtureItem::default()
        },
    )
    .unwrap();
}

fn update_seed_epic(store: &mut Store, id: &str, display: &str, created_seq: i64) {
    insert_fixture_item(
        store,
        FixtureItem {
            id,
            display,
            item_class: "epic",
            ticket_kind: None,
            priority: None,
            title: "Epic",
            created_seq,
            ..FixtureItem::default()
        },
    )
    .unwrap();
}

#[test]
fn update_title_and_body_emits_one_update_ticket_mutation_for_backend() {
    let mut store = open_seeded();
    update_seed_backend_ticket(&mut store, "t1", "tk-1", 1);

    let item = update_item(
        &mut store,
        NOW,
        UpdateRequest {
            id: "t1",
            item_class: ItemClass::Ticket,
            title: Some("New title"),
            body: Some("New body"),
            ..UpdateRequest::default()
        },
    )
    .unwrap();
    assert_eq!(item.title, "New title");
    let row = the_item(&store, "t1");
    let (title, body, updated_at) = (row.title.as_str(), row.body.as_str(), row.updated_at.as_str());
    assert_eq!(title, "New title");
    assert_eq!(body, "New body");
    assert_eq!(updated_at, "2026-05-09T00:00:00.000Z");

    let (mt, payload) = (mutation_types(&store)[0], payloads(&store)[0]);
    assert_eq!(mt, "update_ticket");
    assert_eq!(payload, r#"{"title":"New title","body":"New body"}"#);
}

#[test]
fn local_update_writes_no_mutation() {
    let mut store = open_seeded();
    update_seed_local_ticket(&mut store, "t1", "tk-1", 1);

    update_item(
        &mut store,
        NOW,
        UpdateRequest {
            id: "t1",
            item_class: ItemClass::Ticket,
            title: Some("Renamed"),
            ..UpdateRequest::default()
        },
    )
    .unwrap();
    let mutations = store.mutation_count();
    assert_eq!(mutations, 0);
}

#[test]
fn no_op_update_does_not_bump_updated_at() {
    let mut store = open_seeded();
    update_seed_backend_ticket(&mut store, "t1", "tk-1", 1);

    update_item(
        &mut store,
        NOW,
        UpdateRequest {
            id: "t1",
            item_class: ItemClass::Ticket,
            title: Some("Original"),
            body: Some("Body0"),
            ..UpdateRequest::default()
        },
    )
    .unwrap();
    let updated_at = store.item(0).updated_at.clone();
    assert_eq!(updated_at, "2026-05-09T00:00:00.000Z");
    let mutations = store.mutation_count();
    assert_eq!(mutations, 0);
}

#[test]
fn priority_change_does_not_emit_mutation_even_on_backend_ticket() {
    let mut store = open_seeded();
    update_seed_backend_ticket(&mut store, "t1", "tk-1", 1);

    update_item(
        &mut store,
        NOW,
        UpdateRequest {
            id: "t1",
            item_class: ItemClass::Ticket,
            priority: Some(Priority::P0),
            ..UpdateRequest::default()
        },
    )
    .unwrap();
    let priority = the_item(&store, "t1").priority.unwrap().text();
    assert_eq!(priority, "P0");
    let mutations = store.mutation_count();
    assert_eq!(mutations, 0);
}

#[test]
fn parent_move_emits_remove_then_add_for_backend_ticket() {
    let mut store = open_seeded();
    update_seed_epic(&mut store, "e-old", "tk-1", 1);
    update_seed_epic(&mut store, "e-new", "tk-2", 2);
    insert_fixture_item(
        &mut store,
        FixtureItem {
            id: "t1",
            display: "tk-3",
            title: "Ticket",
            origin: "backend",
            backend_kind: Some("github"),
            backend_key: Some("99"),
            container_id: Some("e-old"),
            created_seq: 3,
            ..FixtureItem::default()
        },
    )
    .unwrap();

    update_item(
        &mut store,
        NOW,
        UpdateRequest {
            id: "t1",
            item_class: ItemClass::Ticket,
            parent: ParentOp::To("e-new"),
            ..UpdateRequest::default()
        },
    )
    .unwrap();

    let container_id = the_item(&store, "t1").container_id.clone();
    assert_eq!(container_id.as_deref(), Some("e-new"));

    let mutation_rows: Vec<(String, String)> = mutation_types(&store)
        .into_iter()
        .zip(payloads(&store))
        .map(|(kind, payload)| (kind.to_string(), payload.to_string()))
        .collect();
    assert_eq!(
        mutation_rows,
        vec![
            (
                "remove_ticket_from_epic".to_string(),
                r#"{"epic_id":"e-old"}"#.to_string(),
            ),
            (
                "add_ticket_to_epic".to_string(),
                r#"{"epic_id":"e-new"}"#.to_string(),
            ),
        ]
    );
}

#[test]
fn parent_clear_emits_remove_only() {
    let mut store = open_seeded();
    update_seed_epic(&mut store, "e1", "tk-1", 1);
    insert_fixture_item(
        &mut store,
        FixtureItem {
            id: "t1",
            display: "tk-2",
            title: "Ticket",
            origin: "backend",
            backend_kind: Some("github"),
            backend_key: Some("99"),
            container_id: Some("e1"),
            created_seq: 2,
            ..FixtureItem::default()
        },
    )
    .unwrap();

    update_item(
        &mut store,
        NOW,
        UpdateRequest {
            id: "t1",
            item_class: ItemClass::Ticket,
            parent: ParentOp::Clear,
            ..UpdateRequest::default()
        },
    )
    .unwrap();

    let container_id = the_item(&store, "t1").container_id.clone();
    assert!(container_id.is_none());
    let mt = mutation_types(&store)[0];
    assert_eq!(mt, "remove_ticket_from_epic");
}

#[test]
fn update_unknown_id_returns_not_found() {
    let mut store = open_seeded();
    let err = update_item(
        &mut store,
        NOW,
        UpdateRequest {
            id: "missing",
            item_class: ItemClass::Ticket,
            title: Some("X"),
            ..UpdateRequest::default()
        },
    )
    .unwrap_err();
    assert!(matches!(err, UpdateError::NotFound));
}

#[test]
fn clear_parent_is_idempotent_when_ticket_has_no_parent() {
    let mut store = open_seeded();
    update_seed_backend_ticket(&mut store, "t1", "tk-1", 1);
    update_item(
        &mut store,
        NOW,
        UpdateRequest {
            id: "t1",
            item_class: ItemClass::Ticket,
            parent: ParentOp::Clear,
            ..UpdateRequest::default()
        },
    )
    .unwrap();
    let updated_at = store.item(0).updated_at.clone();
    assert_eq!(updated_at, "2026-05-09T00:00:00.000Z");
    let mutations = store.mutation_count();
    assert_eq!(mutations, 0);
}

#[test]
fn combined_parent_move_and_title_change_emits_three_mutations_in_order() {
    let mut store = open_seeded();
    update_seed_epic(&mut store, "e-old", "tk-1", 1);
    update_seed_epic(&mut store, "e-new", "tk-2", 2);
    insert_fixture_item(
        &mut store,
        FixtureItem {
            id: "t1",
            display: "tk-3",
            title: "Original",
            origin: "backend",
            backend_kind: Some("github"),
            backend_key: Some("99"),
            container_id: Some("e-old"),
            created_seq: 3,
            ..FixtureItem::default()
        },
    )
    .unwrap();

    update_item(
        &mut store,
        NOW,
        UpdateRequest {
            id: "t1",
            item_class: ItemClass::Ticket,
            title: Some("Renamed"),
            parent: ParentOp::To("e-new"),
            ..UpdateRequest::default()
        },
    )
    .unwrap();

    let rows: Vec<String> = mutation_types(&store).into_iter().map(str::to_string).collect();
    assert_eq!(
        rows,
        vec![
            "remove_ticket_from_epic".to_string(),
            "add_ticket_to_epic".to_string(),
            "update_ticket".to_string(),
        ]
    );
}

#[test]
fn epic_update_emits_update_epic_mutation() {
    let mut store = open_seeded();
    insert_fixture_item(
        &mut store,
        FixtureItem {
            id: "e1",
            display: "tk-1",
            item_class: "epic",
            ticket_kind: None,
            priority: None,
            title: "Original",
            origin: "backend",
            backend_kind: Some("github"),
            backend_key: Some("10"),
            created_seq: 1,
            ..FixtureItem::default()
        },
    )
    .unwrap();

    update_item(
        &mut store,
        NOW,
        UpdateRequest {
            id: "e1",
            item_class: ItemClass::Epic,
            title: Some("Updated Epic"),
            body: Some(""),
            ..UpdateRequest::default()
        },
    )
    .unwrap();
    let mt = mutation_types(&store)[0];
    assert_eq!(mt, "update_epic");
}

fn status_seed_open_ticket(store: &mut Store, id: &str, display: &str, created_seq: i64) {
    insert_fixture_item(
        store,
        FixtureItem {
            id,
            display,
            title: "Ticket",
            created_seq,
            ..FixtureItem::default()
        },
    )
    .unwrap();
}

fn status_seed_backend_ticket(store: &mut Store, id: &str, display: &str, created_seq: i64) {
    insert_fixture_item(
        store,
        FixtureItem {
            id,
            display,
            title: "Ticket",
            origin: "backend",
            backend_kind: Some("github"),
            backend_key: Some("1"),
            created_seq,
            ..FixtureItem::default()
        },
    )
    .unwrap();
}

fn status_seed_done_ticket(store: &mut Store, id: &str, display: &str, created_seq: i64) {
    insert_fixture_item(
        store,
        FixtureItem {
            id,
            display,
            title: "Done Ticket",
            status: "done",
            created_seq,
            ..FixtureItem::default()
        },
    )
    .unwrap();
}

fn status_seed_ticket_with_selection(
    store: &mut Store,
    id: &str,
    display: &str,
    selection: &str,
    priority: Option<&str>,
) {
    insert_fixture_item(
        store,
        FixtureItem {
            id,
            display,
            title: "Subject",
            priority,
            selection_state: Some(selection),
            created_seq: 1,
            ..FixtureItem::default()
        },
    )
    .unwrap();
}

#[test]
fn closing_a_local_ticket_writes_no_mutation() {
    let mut store = open_seeded();
    status_seed_open_ticket(&mut store, "t1", "tk-1", 1);

    let item = close_item(&mut store, NOW, "t1", None).unwrap();

    assert_eq!(item.item_class, ItemClass::Ticket);
    assert_eq!(
        item_axes(&store, "t1"),
        (Lifecycle::Done, WorkState::Idle)
    );

    assert_eq!(store.mutation_count(), 0);
}

#[test]
fn close_clears_work_state_on_an_active_item() {
    let mut store = open_seeded();
    status_seed_open_ticket(&mut store, "t1", "tk-1", 1);
    set_work_state(
        &mut store,
        NOW,
        "t1",
        WorkState::Active,
    )
    .unwrap();

    close_item(&mut store, NOW, "t1", None).unwrap();

    assert_eq!(
        item_axes(&store, "t1"),
        (Lifecycle::Done, WorkState::Idle),
        "closing must clear Work State, not just land the Lifecycle"
    );
}

#[test]
fn closing_a_backend_item_appends_a_set_item_status_mutation() {
    let mut store = open_seeded();
    status_seed_backend_ticket(&mut store, "t1", "tk-1", 1);

    close_item(&mut store, NOW, "t1", None).unwrap();

    let (mt, payload) = (mutation_types(&store)[0], payloads(&store)[0]);
    assert_eq!(mt, "set_item_status");
    assert_eq!(payload, r#"{"status":"done"}"#);
}

#[test]
fn pending_promotion_close_appends_set_item_status_behind_the_promotion() {
    // `tk done` between `tk promote` and the next `tk sync` still
    // reaches the Backend, ordered behind the Promotion.
    let mut store = open_seeded();
    status_seed_open_ticket(&mut store, "t1", "tk-1", 1);
    commit_promotion(&mut store, "t1");

    close_item(&mut store, NOW, "t1", None).unwrap();

    assert_eq!(
        mutation_types(&store),
        vec!["promote_ticket", "set_item_status"]
    );
    let payload = payloads(&store)[1];
    assert_eq!(payload, r#"{"status":"done"}"#);
}

#[test]
fn closing_a_done_item_is_allowed_and_idempotent() {
    let mut store = open_seeded();
    status_seed_done_ticket(&mut store, "t1", "tk-1", 1);
    let before = the_item(&store, "t1").updated_at.clone();

    let item = close_item(&mut store, LATER, "t1", None).unwrap();
    // The no-op branch builds its snapshot from the same pre-read the
    // write branch uses; nothing else asserts the fields it returns.
    assert_eq!(item.display_id, "tk-1");
    assert_eq!(item.title, "Done Ticket");

    assert_eq!(
        item_axes(&store, "t1"),
        (Lifecycle::Done, WorkState::Idle)
    );
    let updated_at = the_item(&store, "t1").updated_at.clone();
    assert_eq!(updated_at, before, "no-op must not bump updated_at");
}

#[test]
fn closing_a_local_ticket_with_a_reason_persists_it_without_a_mutation() {
    let mut store = open_seeded();
    status_seed_open_ticket(&mut store, "t1", "tk-1", 1);

    close_item(&mut store, NOW, "t1", Some("Fixed in PR #12")).unwrap();

    assert_eq!(
        item_axes(&store, "t1"),
        (Lifecycle::Done, WorkState::Idle)
    );

    let stored_reason = the_item(&store, "t1").closing_reason.clone();
    assert_eq!(stored_reason.as_deref(), Some("Fixed in PR #12"));

    // Closing Reason is a Local Field: it never rides the
    // Mutation Log, not even for the status change on a backend item.
    assert_eq!(store.mutation_count(), 0);
}

#[test]
fn backend_close_with_a_reason_keeps_the_status_payload_unchanged() {
    let mut store = open_seeded();
    status_seed_backend_ticket(&mut store, "t1", "tk-1", 1);

    close_item(&mut store, NOW, "t1", Some("Shipped")).unwrap();

    let payload = payloads(&store)[0];
    assert_eq!(payload, r#"{"status":"done"}"#);

    let stored = the_item(&store, "t1").closing_reason.clone();
    assert_eq!(stored.as_deref(), Some("Shipped"));
}

#[test]
fn closing_an_already_done_item_with_a_reason_is_refused() {
    let mut store = open_seeded();
    status_seed_done_ticket(&mut store, "t1", "tk-1", 1);

    let err = close_item(&mut store, NOW, "t1", Some("too late")).unwrap_err();
    assert!(matches!(
        err,
        SetStatusError::AlreadyClosed(ItemClass::Ticket)
    ));

    // The refusal must not mutate the row.
    let stored = the_item(&store, "t1").closing_reason.clone();
    assert_eq!(stored, None);
}

#[test]
fn closing_is_allowed_from_every_selection_state() {
    // `tk done` closes captured and held work without accepting it first:
    // the start-guard is the Work State writer's, not this one's.
    for (id, display, selection, priority) in [
        ("t1", "tk-1", "triage", None),
        ("t2", "tk-2", "parked", Some("P2")),
    ] {
        let mut store = open_seeded();
        status_seed_ticket_with_selection(&mut store, id, display, selection, priority);

        close_item(&mut store, NOW, id, None).unwrap();

        assert_eq!(
            item_axes(&store, id),
            (Lifecycle::Done, WorkState::Idle),
            "a {selection} Ticket must close"
        );
    }
}

#[test]
fn status_unknown_id_returns_not_found() {
    let mut store = open_seeded();
    let err = close_item(&mut store, NOW, "missing", None).unwrap_err();
    assert!(matches!(err, SetStatusError::NotFound));
}

fn work_open_ticket<'a>(id: &'a str, display: &'a str) -> FixtureItem<'a> {
    FixtureItem {
        id,
        display,
        title: "Ticket",
        created_seq: 1,
        ..FixtureItem::default()
    }
}

fn work_backend_ticket<'a>(id: &'a str, display: &'a str) -> FixtureItem<'a> {
    FixtureItem {
        origin: "backend",
        backend_kind: Some("github"),
        backend_key: Some("1"),
        ..work_open_ticket(id, display)
    }
}

#[test]
fn starting_a_local_ticket_writes_only_work_state() {
    let mut store = open_seeded();
    insert_fixture_item(&mut store, work_open_ticket("t1", "tk-1")).unwrap();

    let item = set_work_state(&mut store, NOW, "t1", WorkState::Active).unwrap();

    assert_eq!(item.item_class, ItemClass::Ticket);
    assert_eq!(
        item_axes(&store, "t1"),
        (Lifecycle::Open, WorkState::Active),
        "starting must move Work State and leave the Lifecycle alone"
    );
}

#[test]
fn stopping_returns_the_item_to_idle() {
    let mut store = open_seeded();
    insert_fixture_item(
        &mut store,
        FixtureItem {
            status: "active",
            ..work_open_ticket("t1", "tk-1")
        },
    )
    .unwrap();

    set_work_state(&mut store, NOW, "t1", WorkState::Idle).unwrap();

    assert_eq!(
        item_axes(&store, "t1"),
        (Lifecycle::Open, WorkState::Idle)
    );
}

#[test]
fn a_backend_bound_item_records_no_mutation_for_either_direction() {
    let mut store = open_seeded();
    insert_fixture_item(&mut store, work_backend_ticket("t1", "tk-1")).unwrap();

    set_work_state(&mut store, NOW, "t1", WorkState::Active).unwrap();
    set_work_state(&mut store, NOW, "t1", WorkState::Idle).unwrap();

    assert_eq!(store.mutation_count(), 0);
}

#[test]
fn an_already_active_item_is_started_idempotently() {
    let mut store = open_seeded();
    insert_fixture_item(
        &mut store,
        FixtureItem {
            status: "active",
            ..work_backend_ticket("t1", "tk-1")
        },
    )
    .unwrap();

    set_work_state(
        &mut store,
        LATER,
        "t1",
        WorkState::Active,
    )
    .unwrap();

    assert_eq!(work_updated_at(&store), "2026-05-09T00:00:00.000Z");
    assert_eq!(store.mutation_count(), 0);
}

#[test]
fn an_already_idle_item_is_stopped_idempotently() {
    // The other direction of the same contract: `tk stop` on work that was
    // never started writes nothing at all.
    let mut store = open_seeded();
    insert_fixture_item(&mut store, work_backend_ticket("t1", "tk-1")).unwrap();

    set_work_state(
        &mut store,
        LATER,
        "t1",
        WorkState::Idle,
    )
    .unwrap();

    assert_eq!(work_updated_at(&store), "2026-05-09T00:00:00.000Z");
    assert_eq!(store.mutation_count(), 0);
}

fn work_updated_at(store: &Store) -> String {
    store.item(0).updated_at.clone()
}

#[test]
fn stopping_a_done_item_returns_locked_done() {
    let mut store = open_seeded();
    insert_fixture_item(
        &mut store,
        FixtureItem {
            status: "done",
            ..work_open_ticket("t1", "tk-1")
        },
    )
    .unwrap();

    let err = set_work_state(&mut store, NOW, "t1", WorkState::Idle).unwrap_err();
    assert!(matches!(
        err,
        SetWorkStateError::LockedDone(ItemClass::Ticket)
    ));

    assert_eq!(
        item_axes(&store, "t1"),
        (Lifecycle::Done, WorkState::Idle)
    );
}

#[test]
fn the_done_lock_is_checked_before_the_selection_guard() {
    // A closed triage Ticket is refused as done, not as triage: the guard
    // order decides which diagnostic the user reads, and `done` is the
    // terminal fact.
    let mut store = open_seeded();
    insert_fixture_item(
        &mut store,
        FixtureItem {
            status: "done",
            priority: None,
            selection_state: Some("triage"),
            ..work_open_ticket("t1", "tk-1")
        },
    )
    .unwrap();

    let err = set_work_state(&mut store, NOW, "t1", WorkState::Active).unwrap_err();
    assert!(matches!(err, SetWorkStateError::LockedDone(_)));
}

#[test]
fn starting_a_non_accepted_ticket_is_rejected_and_leaves_the_row_alone() {
    for (selection, priority, expected) in
        [("triage", None, "triage"), ("parked", Some("P2"), "parked")]
    {
        let mut store = open_seeded();
        insert_fixture_item(
            &mut store,
            FixtureItem {
                priority,
                selection_state: Some(selection),
                ..work_open_ticket("t1", "tk-1")
            },
        )
        .unwrap();

        let err = set_work_state(&mut store, NOW, "t1", WorkState::Active).unwrap_err();
        match (expected, &err) {
            ("triage", SetWorkStateError::TriageNotStartable)
            | ("parked", SetWorkStateError::ParkedNotStartable) => {}
            _ => panic!("a {selection} Ticket must refuse a start, got {err:?}"),
        }

        assert_eq!(
            item_axes(&store, "t1"),
            (Lifecycle::Open, WorkState::Idle),
            "a rejected start must not move Work State"
        );
    }
}

#[test]
fn starting_an_accepted_ticket_still_succeeds() {
    // The start-guard must reject only non-accepted work.
    let mut store = open_seeded();
    insert_fixture_item(
        &mut store,
        FixtureItem {
            selection_state: Some("accepted"),
            ..work_open_ticket("t1", "tk-1")
        },
    )
    .unwrap();

    set_work_state(&mut store, NOW, "t1", WorkState::Active).unwrap();

    assert_eq!(
        item_axes(&store, "t1"),
        (Lifecycle::Open, WorkState::Active)
    );
}

#[test]
fn starting_an_epic_succeeds_without_a_selection_state() {
    let mut store = open_seeded();
    insert_fixture_item(
        &mut store,
        FixtureItem {
            item_class: "epic",
            ticket_kind: None,
            priority: None,
            title: "Epic",
            ..work_open_ticket("e1", "tk-1")
        },
    )
    .unwrap();

    set_work_state(&mut store, NOW, "e1", WorkState::Active).unwrap();

    assert_eq!(
        item_axes(&store, "e1"),
        (Lifecycle::Open, WorkState::Active)
    );
}

#[test]
fn work_state_unknown_id_returns_not_found() {
    let mut store = open_seeded();
    let err = set_work_state(&mut store, NOW, "missing", WorkState::Active).unwrap_err();
    assert!(matches!(err, SetWorkStateError::NotFound));
}

fn accept_seed(store: &mut Store, id: &str, selection: &str, priority: Option<&str>) {
    insert_fixture_item(
        store,
        FixtureItem {
            id,
            display: id,
            title: id,
            priority,
            selection_state: Some(selection),
            created_seq: 1,
            ..FixtureItem::default()
        },
    )
    .unwrap();
}

fn accept_selection_of(store: &Store, id: &str) -> (Option<String>, String, String) {
    let item = the_item(store, id);
    (
        item.priority.map(|p| p.text().to_owned()),
        item.selection_state.unwrap().text().to_owned(),
        item.updated_at.clone(),
    )
}

#[test]
fn triage_with_priority_becomes_accepted() {
    let mut store = open_seeded();
    accept_seed(&mut store, "t", "triage", None);
    let out = accept_ticket(&mut store, NOW, "t", Some(Priority::P1)).unwrap();
    assert_eq!(
        out,
        AcceptOutcome::Accepted {
            display_id: "t".into(),
            title: "t".into(),
            priority: Priority::P1
        }
    );
    let (priority, selection, _) = accept_selection_of(&store, "t");
    assert_eq!(priority.as_deref(), Some("P1"));
    assert_eq!(selection, "accepted");
}

#[test]
fn triage_without_priority_is_rejected() {
    let mut store = open_seeded();
    accept_seed(&mut store, "t", "triage", None);
    assert!(matches!(
        accept_ticket(&mut store, NOW, "t", None),
        Err(AcceptError::PriorityRequired)
    ));
}

#[test]
fn already_accepted_without_priority_is_idempotent_and_keeps_updated_at() {
    let mut store = open_seeded();
    accept_seed(&mut store, "t", "accepted", Some("P2"));
    let before = accept_selection_of(&store, "t").2;
    let out = accept_ticket(&mut store, LATER, "t", None).unwrap();
    assert_eq!(
        out,
        AcceptOutcome::AlreadyAccepted {
            display_id: "t".into()
        }
    );
    assert_eq!(
        accept_selection_of(&store, "t").2,
        before,
        "no-op must not bump updated_at"
    );
}

#[test]
fn already_accepted_with_priority_is_rejected() {
    let mut store = open_seeded();
    accept_seed(&mut store, "t", "accepted", Some("P2"));
    assert!(matches!(
        accept_ticket(&mut store, NOW, "t", Some(Priority::P0)),
        Err(AcceptError::PriorityOnAccepted)
    ));
}

#[test]
fn parked_is_rejected() {
    let mut store = open_seeded();
    accept_seed(&mut store, "t", "parked", Some("P2"));
    assert!(matches!(
        accept_ticket(&mut store, NOW, "t", None),
        Err(AcceptError::Parked)
    ));
}

#[test]
fn epic_is_rejected() {
    let mut store = open_seeded();
    insert_fixture_item(
        &mut store,
        FixtureItem {
            id: "e",
            display: "e",
            item_class: "epic",
            ticket_kind: None,
            priority: None,
            title: "Epic",
            created_seq: 1,
            ..FixtureItem::default()
        },
    )
    .unwrap();
    assert!(matches!(
        accept_ticket(&mut store, NOW, "e", Some(Priority::P1)),
        Err(AcceptError::NotATicket)
    ));
}

#[test]
fn accept_emits_no_mutation() {
    let mut store = open_seeded();
    accept_seed(&mut store, "t", "triage", None);
    accept_ticket(&mut store, NOW, "t", Some(Priority::P1)).unwrap();
    let mutations = store.mutation_count();
    assert_eq!(mutations, 0, "Selection State changes never emit Mutations");
}

fn edge_seed_ticket(store: &mut Store, id: &str, display: &str, created_seq: i64) {
    insert_fixture_item(
        store,
        FixtureItem {
            id,
            display,
            title: "Ticket",
            created_seq,
            ..FixtureItem::default()
        },
    )
    .unwrap();
}

fn edge_seed_backend(
    store: &mut Store,
    id: &str,
    display: &str,
    backend_kind: &str,
    backend_key: &str,
    created_seq: i64,
) {
    insert_fixture_item(
        store,
        FixtureItem {
            id,
            display,
            title: "Backend",
            origin: "backend",
            backend_kind: Some(backend_kind),
            backend_key: Some(backend_key),
            created_seq,
            ..FixtureItem::default()
        },
    )
    .unwrap();
}

fn edge_seed_done(store: &mut Store, id: &str, display: &str, created_seq: i64) {
    insert_fixture_item(
        store,
        FixtureItem {
            id,
            display,
            title: "Done",
            status: "done",
            created_seq,
            ..FixtureItem::default()
        },
    )
    .unwrap();
}

#[test]
fn add_dependency_inserts_edge_and_no_mutation_for_local() {
    let mut store = open_seeded();
    edge_seed_ticket(&mut store, "blocking", "tk-1", 1);
    edge_seed_ticket(&mut store, "blocked", "tk-2", 2);

    add_dependency(
        &mut store,
        NOW,
        DependencyEdge {
            blocked_id: "blocked",
            blocking_id: "blocking",
        },
    )
    .unwrap();

    let count = store.dependency_count();
    assert_eq!(count, 1);
    let mutations = store.mutation_count();
    assert_eq!(mutations, 0);
}

#[test]
fn add_dependency_same_backend_kind_emits_mutation() {
    let mut store = open_seeded();
    edge_seed_backend(&mut store, "blocking", "tk-1", "github", "1", 1);
    edge_seed_backend(&mut store, "blocked", "tk-2", "github", "2", 2);

    add_dependency(
        &mut store,
        NOW,
        DependencyEdge {
            blocked_id: "blocked",
            blocking_id: "blocking",
        },
    )
    .unwrap();

    let (mt, payload) = (mutation_types(&store)[0], payloads(&store)[0]);
    assert_eq!(mt, "add_dependency");
    assert_eq!(payload, r#"{"blocking_id":"blocking"}"#);
}

#[test]
fn add_dependency_refuses_backend_blocked_local_blocking() {
    let mut store = open_seeded();
    edge_seed_backend(&mut store, "blocked", "tk-1", "github", "1", 1);
    edge_seed_ticket(&mut store, "blocking", "tk-2", 2);

    let err = add_dependency(
        &mut store,
        NOW,
        DependencyEdge {
            blocked_id: "blocked",
            blocking_id: "blocking",
        },
    )
    .unwrap_err();
    assert!(matches!(
        err,
        AddDependencyError::BackendBlockedLocalBlocking
    ));
    let count = store.dependency_count();
    assert_eq!(count, 0);
}

#[test]
fn add_dependency_refuses_backend_kind_mismatch() {
    let mut store = open_seeded();
    edge_seed_backend(&mut store, "blocked", "tk-1", "github", "1", 1);
    edge_seed_backend(&mut store, "blocking", "tk-2", "jira", "j-2", 2);

    let err = add_dependency(
        &mut store,
        NOW,
        DependencyEdge {
            blocked_id: "blocked",
            blocking_id: "blocking",
        },
    )
    .unwrap_err();
    assert!(matches!(err, AddDependencyError::BackendKindMismatch));
}

#[test]
fn add_dependency_refuses_done_endpoints() {
    let mut store = open_seeded();
    edge_seed_done(&mut store, "done-block", "tk-1", 1);
    edge_seed_ticket(&mut store, "open-block", "tk-2", 2);

    // Blocked is done.
    let err = add_dependency(
        &mut store,
        NOW,
        DependencyEdge {
            blocked_id: "done-block",
            blocking_id: "open-block",
        },
    )
    .unwrap_err();
    assert!(matches!(err, AddDependencyError::BlockedDone));

    // Blocking is done.
    let err = add_dependency(
        &mut store,
        NOW,
        DependencyEdge {
            blocked_id: "open-block",
            blocking_id: "done-block",
        },
    )
    .unwrap_err();
    assert!(matches!(err, AddDependencyError::BlockingDone));
}

#[test]
fn add_dependency_detects_simple_cycle() {
    let mut store = open_seeded();
    edge_seed_ticket(&mut store, "a", "tk-1", 1);
    edge_seed_ticket(&mut store, "b", "tk-2", 2);
    insert_dependency(&mut store, "a", "b").unwrap();

    let err = add_dependency(
        &mut store,
        NOW,
        DependencyEdge {
            blocked_id: "a",
            blocking_id: "b",
        },
    )
    .unwrap_err();
    assert!(matches!(err, AddDependencyError::Cycle));
    let edges = store.dependency_count();
    assert_eq!(edges, 1);
}

#[test]
fn add_dependency_is_idempotent_and_does_not_re_emit_mutation() {
    let mut store = open_seeded();
    edge_seed_backend(&mut store, "blocking", "tk-1", "github", "1", 1);
    edge_seed_backend(&mut store, "blocked", "tk-2", "github", "2", 2);

    add_dependency(
        &mut store,
        NOW,
        DependencyEdge {
            blocked_id: "blocked",
            blocking_id: "blocking",
        },
    )
    .unwrap();
    add_dependency(
        &mut store,
        NOW,
        DependencyEdge {
            blocked_id: "blocked",
            blocking_id: "blocking",
        },
    )
    .unwrap();
    let mutations = store.mutation_count();
    assert_eq!(mutations, 1);
}

#[test]
fn add_dependency_missing_endpoint_returns_typed_error() {
    let mut store = open_seeded();
    edge_seed_ticket(&mut store, "lone", "tk-1", 1);
    let err = add_dependency(
        &mut store,
        NOW,
        DependencyEdge {
            blocked_id: "lone",
            blocking_id: "nope",
        },
    )
    .unwrap_err();
    assert!(matches!(err, AddDependencyError::EndpointMissing));
}

#[test]
fn add_dependency_refuses_a_pending_blocked_item_waiting_on_a_local_blocking_item() {
    // A Pending Promotion Blocked Item is backend-bound, so the
    // edge must be refused here: accepting it would let `tk block` build a
    // graph the next `tk promote` preflight rejects.
    let mut store = open_seeded();
    edge_seed_ticket(&mut store, "blocked", "tk-1", 1);
    edge_seed_ticket(&mut store, "blocking", "tk-2", 2);
    commit_promotion(&mut store, "blocked");

    let err = add_dependency(
        &mut store,
        NOW,
        DependencyEdge {
            blocked_id: "blocked",
            blocking_id: "blocking",
        },
    )
    .unwrap_err();

    assert!(matches!(
        err,
        AddDependencyError::BackendBlockedLocalBlocking
    ));
    let edges = store.dependency_count();
    assert_eq!(edges, 0);
}

#[test]
fn add_dependency_between_two_pending_items_emits_intent_behind_both_promotions() {
    let mut store = open_seeded();
    edge_seed_ticket(&mut store, "blocked", "tk-1", 1);
    edge_seed_ticket(&mut store, "blocking", "tk-2", 2);
    commit_promotion(&mut store, "blocked");
    commit_promotion(&mut store, "blocking");

    add_dependency(
        &mut store,
        NOW,
        DependencyEdge {
            blocked_id: "blocked",
            blocking_id: "blocking",
        },
    )
    .unwrap();

    assert_eq!(
        mutation_types(&store),
        vec!["promote_ticket", "promote_ticket", "add_dependency"]
    );
}

#[test]
fn add_dependency_from_a_pending_item_onto_the_same_backend_emits_a_mutation() {
    let mut store = open_seeded();
    edge_seed_ticket(&mut store, "blocked", "tk-1", 1);
    edge_seed_backend(&mut store, "blocking", "gh-2", "github", "2", 2);
    commit_promotion(&mut store, "blocked");

    add_dependency(
        &mut store,
        NOW,
        DependencyEdge {
            blocked_id: "blocked",
            blocking_id: "blocking",
        },
    )
    .unwrap();

    assert_eq!(
        mutation_types(&store),
        vec!["promote_ticket", "add_dependency"]
    );
}

#[test]
fn remove_dependency_drops_edge_and_emits_mutation_for_backend_pair() {
    let mut store = open_seeded();
    edge_seed_backend(&mut store, "blocking", "tk-1", "github", "1", 1);
    edge_seed_backend(&mut store, "blocked", "tk-2", "github", "2", 2);
    insert_dependency(&mut store, "blocking", "blocked").unwrap();

    remove_dependency(
        &mut store,
        NOW,
        DependencyEdge {
            blocked_id: "blocked",
            blocking_id: "blocking",
        },
    )
    .unwrap();

    let edges = store.dependency_count();
    assert_eq!(edges, 0);
    let mt = mutation_types(&store)[0];
    assert_eq!(mt, "remove_dependency");
}

#[test]
fn remove_dependency_between_two_pending_items_emits_a_mutation() {
    let mut store = open_seeded();
    edge_seed_ticket(&mut store, "blocked", "tk-1", 1);
    edge_seed_ticket(&mut store, "blocking", "tk-2", 2);
    commit_promotion(&mut store, "blocked");
    commit_promotion(&mut store, "blocking");
    insert_dependency(&mut store, "blocking", "blocked").unwrap();

    remove_dependency(
        &mut store,
        NOW,
        DependencyEdge {
            blocked_id: "blocked",
            blocking_id: "blocking",
        },
    )
    .unwrap();

    assert_eq!(
        mutation_types(&store),
        vec!["promote_ticket", "promote_ticket", "remove_dependency"]
    );
}

#[test]
fn remove_dependency_emits_nothing_when_only_the_blocking_item_is_pending() {
    // The Blocked Item carries no backend intent, so the edge was never
    // backend intent and its removal is current-state cleanup — the same
    // answer `add_dependency` gives this pairing.
    let mut store = open_seeded();
    edge_seed_ticket(&mut store, "blocked", "tk-1", 1);
    edge_seed_ticket(&mut store, "blocking", "tk-2", 2);
    insert_dependency(&mut store, "blocking", "blocked").unwrap();
    commit_promotion(&mut store, "blocking");

    remove_dependency(
        &mut store,
        NOW,
        DependencyEdge {
            blocked_id: "blocked",
            blocking_id: "blocking",
        },
    )
    .unwrap();

    assert_eq!(mutation_types(&store), vec!["promote_ticket"]);
    let edges = store.dependency_count();
    assert_eq!(edges, 0);
}

#[test]
fn remove_dependency_is_a_noop_on_missing_edges() {
    let mut store = open_seeded();
    edge_seed_ticket(&mut store, "blocking", "tk-1", 1);
    edge_seed_ticket(&mut store, "blocked", "tk-2", 2);

    remove_dependency(
        &mut store,
        NOW,
        DependencyEdge {
            blocked_id: "blocked",
            blocking_id: "blocking",
        },
    )
    .unwrap();
}

/// Commit a Promotion of one Item as an operation of its own.
fn commit_promotion(store: &mut Store, item_id: &str) {
    let row = the_item(store, item_id);
    let draft = MutationDraft {
        mutation_type: match row.item_class {
            ItemClass::Ticket => MutationType::PromoteTicket,
            ItemClass::Epic => MutationType::PromoteEpic,
        },
        item_id: item_id.to_owned(),
        item_class: row.item_class,
        payload: MutationPayload::Promotion(Promotion {
            title: row.title.clone(),
            body: row.body.clone(),
            backend_kind: "github".to_owned(),
        }),
    };
    let plan = PromotionPlan { mutations: vec![draft] };
    store.set_remote_kind(Some(BackendKind::Github));
    let operation = format!("promo-{item_id}");
    commit_operation(store, &plan, BackendKind::Github, &operation, NOW).unwrap();
}
