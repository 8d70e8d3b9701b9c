//! Promotion: the graph, the commit, the receipt, recovery and cancellation.

use rand::rngs::StdRng;
use rand::SeedableRng;
use tk_store::domain::{
    AddressedCounterpart, BackendBinding, BackendKind, DependencyRejection, ItemClass, ItemStatus,
    Lifecycle, MutationState, MutationType, Origin, Priority, SelectionState, TicketKind,
    WorkState,
};
use tk_store::mutations::{
    append, resolve_backend_binding, transition, AppendError, AppendRequest, TransitionRequest,
};
use tk_store::payload::{DependencyRef, EpicRef, MutationPayload, Promotion, TitleBody};
use tk_store::promotion::{
    abandoned_promotions, apply_receipt, cancel_promotion, capture_recovery_mappings, commit_plan,
    earliest_applicable_mutation, read_graph, reconcile_promotion, recoverable_promotion,
    retry_promotion, unresolved_in_operation, AbandonedPromotion, ApplyReceiptError,
    BackendItemIdentity, CancelPromotionError, CancellationReport, CommitPlanError, MutationDraft,
    MutationSummary, PromotionGraph, PromotionPlan, RecoveryPromotionError,
    RecoveryPromotionMapping, UnrepresentableDependency,
};
use tk_store::repository::resolve_item_ref;
use tk_store::rows::{Alias, Dependency, ExternalBlocker, Item, Mutation, SyncCursor};
use tk_store::sync::BackendCohortError;
use tk_store::tables::{Counter, Fault, Store};

/// The time of every change that a test makes, unless it says otherwise.
#[allow(dead_code)]
const NOW: &str = "2026-06-01T00:00:00Z";

/// A later time.
#[allow(dead_code)]
const LATER: &str = "2030-03-17T17:46:40.000Z";

/// A fresh store: counters at zero and a Display ID prefix.
fn open_seeded() -> Store {
    let mut store = Store::new();
    store.set_counter(Counter::ItemCreated, Some(0));
    store.set_counter(Counter::Display, Some(0));
    store.set_counter(Counter::Mutation, Some(0));
    store.set_display_prefix(Some("tk".to_owned()));
    store.set_remote_kind(Some(BackendKind::Github));
    store.set_cursor(Some(SyncCursor { last_applied_sequence: 0, updated_at: NOW.to_owned() }));
    store
}

/// An Item to put into the store.
#[derive(Clone, Copy)]
struct FixtureItem<'a> {
    id: &'a str,
    display: &'a str,
    item_class: &'a str,
    ticket_kind: Option<&'a str>,
    priority: Option<&'a str>,
    selection_state: Option<&'a str>,
    title: &'a str,
    body: &'a str,
    status: &'a str,
    closing_reason: Option<&'a str>,
    container_id: Option<&'a str>,
    origin: &'a str,
    backend_kind: Option<&'a str>,
    backend_key: Option<&'a str>,
    created_seq: i64,
    created_at: &'a str,
    updated_at: &'a str,
}

impl<'a> Default for FixtureItem<'a> {
    fn default() -> Self {
        FixtureItem {
            id: "",
            display: "",
            item_class: "ticket",
            ticket_kind: Some("task"),
            priority: Some("P2"),
            selection_state: Some("accepted"),
            title: "",
            body: "",
            status: "open",
            closing_reason: None,
            container_id: None,
            origin: "local",
            backend_kind: None,
            backend_key: None,
            created_seq: 0,
            created_at: NOW,
            updated_at: NOW,
        }
    }
}

fn fixture_row(item: FixtureItem<'_>) -> Item {
    let epic = item.item_class == "epic";
    Item {
        id: item.id.to_owned(),
        display_id: item.display.to_owned(),
        display_created_at: NOW.to_owned(),
        item_class: ItemClass::parse(item.item_class).unwrap(),
        ticket_kind: item.ticket_kind.map(|t| TicketKind::parse(t).unwrap()),
        priority: item.priority.map(|t| Priority::parse(t).unwrap()),
        selection_state: if epic {
            None
        } else {
            item.selection_state.map(|t| SelectionState::parse(t).unwrap())
        },
        title: item.title.to_owned(),
        body: item.body.to_owned(),
        closing_reason: item.closing_reason.map(str::to_owned),
        lifecycle: if item.status == "done" { Lifecycle::Done } else { Lifecycle::Open },
        work_state: if item.status == "active" { WorkState::Active } else { WorkState::Idle },
        container_id: item.container_id.map(str::to_owned),
        origin: Origin::parse(item.origin).unwrap(),
        backend_kind: item.backend_kind.map(str::to_owned),
        backend_key: item.backend_key.map(str::to_owned),
        local_display_id: None,
        created_seq: item.created_seq,
        created_at: item.created_at.to_owned(),
        updated_at: item.updated_at.to_owned(),
    }
}

fn insert_fixture_item(store: &mut Store, item: FixtureItem<'_>) -> Result<(), Fault> {
    store.insert_item(fixture_row(item))
}

#[allow(dead_code)]
fn insert_alias(store: &mut Store, value: &str, item_id: &str) -> Result<(), Fault> {
    store.insert_alias(Alias {
        value: value.to_owned(),
        item_id: item_id.to_owned(),
        created_at: NOW.to_owned(),
    })
}

#[allow(dead_code)]
fn insert_dependency(store: &mut Store, blocking: &str, blocked: &str) -> Result<(), Fault> {
    store.insert_dependency(Dependency {
        blocking_id: blocking.to_owned(),
        blocked_id: blocked.to_owned(),
        created_at: NOW.to_owned(),
    })
}

#[allow(dead_code)]
fn insert_external_blocker(
    store: &mut Store,
    id: &str,
    item_id: &str,
    resolved_at: Option<&str>,
) -> Result<(), Fault> {
    store.insert_external_blocker(ExternalBlocker {
        id: id.to_owned(),
        item_id: item_id.to_owned(),
        reason: "fixture blocker".to_owned(),
        created_at: NOW.to_owned(),
        resolved_at: resolved_at.map(str::to_owned),
    })
}

/// A Mutation to put into the log.
#[derive(Clone, Copy)]
struct FixtureMutation<'a> {
    sequence: i64,
    mutation_type: &'a str,
    item_id: &'a str,
    item_class: &'a str,
    payload_json: &'a str,
    state: &'a str,
    failure_json: Option<&'a str>,
    promotion_operation_id: Option<&'a str>,
}

impl<'a> Default for FixtureMutation<'a> {
    fn default() -> Self {
        FixtureMutation {
            sequence: 1,
            mutation_type: "update_ticket",
            item_id: "",
            item_class: "ticket",
            payload_json: "{}",
            state: "pending",
            failure_json: None,
            promotion_operation_id: None,
        }
    }
}

#[allow(dead_code)]
fn insert_fixture_mutation(store: &mut Store, m: FixtureMutation<'_>) -> Result<(), Fault> {
    store.insert_mutation(Mutation {
        sequence: m.sequence,
        mutation_type: MutationType::parse(m.mutation_type).unwrap(),
        item_id: m.item_id.to_owned(),
        item_class: ItemClass::parse(m.item_class).unwrap(),
        payload_json: m.payload_json.to_owned(),
        state: MutationState::parse(m.state).unwrap(),
        failure_json: m.failure_json.map(str::to_owned),
        created_at: NOW.to_owned(),
        state_changed_at: NOW.to_owned(),
        promotion_operation_id: m.promotion_operation_id.map(str::to_owned),
    })
}

#[allow(dead_code)]
fn the_item<'a>(store: &'a Store, id: &str) -> &'a Item {
    store.item(store.find(id).unwrap())
}

#[allow(dead_code)]
fn item_axes(store: &Store, id: &str) -> (Lifecycle, WorkState) {
    let item = the_item(store, id);
    (item.lifecycle, item.work_state)
}

#[allow(dead_code)]
fn mutation_types(store: &Store) -> Vec<&'static str> {
    (0..store.mutation_count())
        .map(|i| store.mutation(i).mutation_type.text())
        .collect()
}

#[allow(dead_code)]
fn mutation_states(store: &Store) -> Vec<&'static str> {
    (0..store.mutation_count())
        .map(|i| store.mutation(i).state.text())
        .collect()
}

#[allow(dead_code)]
fn payloads(store: &Store) -> Vec<&str> {
    (0..store.mutation_count())
        .map(|i| store.mutation(i).payload_json.as_str())
        .collect()
}

fn local_ticket(store: &mut Store, id: &str, display: &str) {
    insert_fixture_item(
        store,
        FixtureItem {
            id,
            display,
            title: "Local work",
            selection_state: Some("parked"),
            priority: Some("P0"),
            created_seq: 1,
            ..FixtureItem::default()
        },
    )
    .unwrap();
}

fn receipt(backend_key: &str, display_id: &str) -> BackendItemIdentity {
    BackendItemIdentity {
        backend_key: backend_key.into(),
        display_id: display_id.into(),
    }
}

fn promote(
    store: &mut Store,
    item_id: &str,
    receipt: &BackendItemIdentity,
) -> Result<(), ApplyReceiptError> {
    apply_receipt(store, item_id, "github", receipt, NOW)
}

#[test]
fn receipt_makes_the_item_a_backend_item_and_replaces_the_display_id() {
    let mut store = open_seeded();
    local_ticket(&mut store, "t1", "tk-1");

    promote(&mut store, "t1", &receipt("42", "gh-42")).unwrap();

    let row = the_item(&store, "t1");
    let (display, origin, kind, key, updated) = (
        row.display_id.as_str(),
        row.origin.text(),
        row.backend_kind.as_deref().unwrap(),
        row.backend_key.as_deref().unwrap(),
        row.updated_at.as_str(),
    );
    assert_eq!(display, "gh-42");
    assert_eq!(origin, "backend");
    assert_eq!(kind, "github");
    assert_eq!(key, "42");
    assert_eq!(updated, NOW);
}

#[test]
fn the_outgoing_display_id_still_resolves_as_an_alias() {
    let mut store = open_seeded();
    local_ticket(&mut store, "t1", "tk-1");

    promote(&mut store, "t1", &receipt("42", "gh-42")).unwrap();

    // Both identifiers reach the same Item; the local one is the Alias.
    assert_eq!(resolve_item_ref(&store, "tk-1").unwrap().id, "t1");
    assert_eq!(resolve_item_ref(&store, "gh-42").unwrap().id, "t1");

    assert_eq!(the_item(&store, "t1").display_id, "gh-42");
    assert_eq!(
        aliases(&store, "t1"),
        vec!["tk-1".to_string()],
        "exactly one display row and one alias row after the swap"
    );
}

#[test]
fn local_fields_survive_promotion() {
    // Selection State and Priority are Local Fields that
    // Promotion preserves; status/title/body are not the receipt's to move.
    let mut store = open_seeded();
    local_ticket(&mut store, "t1", "tk-1");

    promote(&mut store, "t1", &receipt("42", "gh-42")).unwrap();

    let row = the_item(&store, "t1");
    let (selection, priority, status, title) = (
        row.selection_state.unwrap().text(),
        row.priority.unwrap().text(),
        row.lifecycle.text(),
        row.title.as_str(),
    );
    assert_eq!(selection, "parked");
    assert_eq!(priority, "P0");
    assert_eq!(status, "open");
    assert_eq!(title, "Local work");
}

#[test]
fn an_accepted_ticket_stays_accepted_through_promotion() {
    let mut store = open_seeded();
    insert_fixture_item(
        &mut store,
        FixtureItem {
            id: "t1",
            display: "tk-1",
            title: "Local work",
            selection_state: Some("accepted"),
            priority: Some("P2"),
            created_seq: 1,
            ..FixtureItem::default()
        },
    )
    .unwrap();

    promote(&mut store, "t1", &receipt("42", "gh-42")).unwrap();

    let row = the_item(&store, "t1");
    let (selection, priority) =
        (row.selection_state.unwrap().text(), row.priority.unwrap().text());
    assert_eq!(selection, "accepted");
    assert_eq!(priority, "P2");
}

#[test]
fn a_display_id_another_item_claims_is_refused_and_rolls_back() {
    let mut store = open_seeded();
    local_ticket(&mut store, "t1", "tk-1");
    insert_fixture_item(
        &mut store,
        FixtureItem {
            id: "t2",
            display: "gh-42",
            title: "Squatter",
            created_seq: 2,
            ..FixtureItem::default()
        },
    )
    .unwrap();

    let err = promote(&mut store, "t1", &receipt("42", "gh-42")).unwrap_err();
    assert!(
        matches!(err, ApplyReceiptError::Storage(Fault::DisplayIdTaken)),
        "expected the already-claimed Display ID to be refused, got {err:?}"
    );

    let row = the_item(&store, "t1");
    let (display, origin) = (row.display_id.as_str(), row.origin.text());
    assert_eq!(display, "tk-1");
    assert_eq!(origin, "local");
    assert!(aliases(&store, "t1").is_empty(), "the demote rolled back with the insert");
}

#[test]
fn promoting_an_epic_keeps_its_null_ticket_only_columns() {
    let mut store = open_seeded();
    insert_fixture_item(
        &mut store,
        FixtureItem {
            id: "e1",
            display: "tk-1",
            item_class: "epic",
            ticket_kind: None,
            priority: None,
            title: "Local epic",
            created_seq: 1,
            ..FixtureItem::default()
        },
    )
    .unwrap();

    promote(&mut store, "e1", &receipt("7", "gh-7")).unwrap();

    let row = the_item(&store, "e1");
    let (display, origin, selection) =
        (row.display_id.as_str(), row.origin.text(), row.selection_state);
    assert_eq!(display, "gh-7");
    assert_eq!(origin, "backend");
    assert_eq!(selection, None, "Epics stay outside Selection State");
}

// ── Preflight graph read ──────────────────────────────────────────────

fn seed_ticket(store: &mut Store, id: &str, display: &str, created_seq: i64) {
    insert_fixture_item(
        store,
        FixtureItem {
            id,
            display,
            title: "Ticket",
            created_seq,
            ..FixtureItem::default()
        },
    )
    .unwrap();
}

fn seed_epic(store: &mut Store, id: &str, display: &str, created_seq: i64) {
    insert_fixture_item(
        store,
        FixtureItem {
            id,
            display,
            item_class: "epic",
            ticket_kind: None,
            priority: None,
            title: "Epic",
            created_seq,
            ..FixtureItem::default()
        },
    )
    .unwrap();
}

fn seed_child(store: &mut Store, id: &str, display: &str, epic_id: &str, created_seq: i64) {
    insert_fixture_item(
        store,
        FixtureItem {
            id,
            display,
            title: "Child",
            container_id: Some(epic_id),
            created_seq,
            ..FixtureItem::default()
        },
    )
    .unwrap();
}

fn item_ids(graph: &PromotionGraph) -> Vec<&str> {
    graph.items.iter().map(|i| i.id.as_str()).collect()
}

fn edges(graph: &PromotionGraph) -> Vec<(&str, &str)> {
    graph
        .dependencies
        .iter()
        .map(|d| (d.blocked_id.as_str(), d.blocking_id.as_str()))
        .collect()
}

#[test]
fn an_unrelated_target_is_the_whole_graph() {
    let mut store = open_seeded();
    seed_ticket(&mut store, "t1", "tk-1", 1);
    seed_ticket(&mut store, "elsewhere", "tk-2", 2);

    let graph = read_graph(&store, "t1", false).unwrap();

    assert_eq!(graph.target_id, "t1");
    assert!(!graph.children_requested);
    assert_eq!(item_ids(&graph), vec!["t1"]);
    assert!(graph.dependencies.is_empty());

    let target = &graph.items[0];
    assert_eq!(target.display_id, "tk-1");
    assert_eq!(target.item_class, ItemClass::Ticket);
    assert_eq!(target.status, ItemStatus::Open);
    assert_eq!(target.created_seq, 1);
    assert_eq!(target.container_id, None);
}

#[test]
fn requested_children_join_the_snapshot_whatever_their_origin() {
    // Origin is not filtered here: which contained Tickets are Promotion
    // Children is the planner's call, and it needs to see an already
    // backend-backed sibling to judge the resulting graph.
    let mut store = open_seeded();
    seed_epic(&mut store, "epic", "tk-1", 1);
    seed_child(&mut store, "local-child", "tk-2", "epic", 2);
    insert_fixture_item(
        &mut store,
        FixtureItem {
            id: "backend-child",
            display: "gh-9",
            title: "Adopted",
            origin: "backend",
            backend_kind: Some("github"),
            backend_key: Some("9"),
            container_id: Some("epic"),
            created_seq: 3,
            ..FixtureItem::default()
        },
    )
    .unwrap();
    seed_ticket(&mut store, "outside", "tk-4", 4);

    let graph = read_graph(&store, "epic", true).unwrap();

    assert!(graph.children_requested);
    assert_eq!(
        item_ids(&graph),
        vec!["epic", "local-child", "backend-child"]
    );
    assert_eq!(graph.items[1].container_id.as_deref(), Some("epic"));
}

#[test]
fn contained_tickets_are_snapshotted_even_without_children() {
    // Promoting an Epic snapshots membership for the Tickets it already
    // contains on the same Backend, so the snapshot carries them whether
    // or not `--children` was passed; `children_requested` only decides
    // which of them the planner treats as Promotion Children.
    let mut store = open_seeded();
    seed_epic(&mut store, "epic", "tk-1", 1);
    seed_child(&mut store, "child", "tk-2", "epic", 2);

    let graph = read_graph(&store, "epic", false).unwrap();

    assert_eq!(item_ids(&graph), vec!["epic", "child"]);
    assert!(!graph.children_requested);
}

#[test]
fn a_ticket_target_pulls_in_its_containing_epic() {
    let mut store = open_seeded();
    seed_epic(&mut store, "epic", "tk-1", 1);
    seed_child(&mut store, "child", "tk-2", "epic", 2);
    seed_child(&mut store, "sibling", "tk-3", "epic", 3);

    let graph = read_graph(&store, "child", false).unwrap();

    // The Epic joins because Promotion has to decide about membership; the
    // sibling does not — `--children` descends from an Epic target only.
    assert_eq!(item_ids(&graph), vec!["epic", "child"]);
}

#[test]
fn a_dependency_endpoint_outside_the_operation_joins_as_an_item() {
    let mut store = open_seeded();
    seed_ticket(&mut store, "t1", "tk-1", 1);
    seed_ticket(&mut store, "outside", "tk-2", 2);
    insert_dependency(&mut store, "outside", "t1").unwrap();

    let graph = read_graph(&store, "t1", false).unwrap();

    // Preflight rejects a backend-backed Blocked Item left waiting on a
    // Local Blocking Item, which it can only see if the
    // out-of-scope endpoint is in the snapshot.
    assert_eq!(item_ids(&graph), vec!["t1", "outside"]);
    assert_eq!(edges(&graph), vec![("t1", "outside")]);
}

#[test]
fn a_done_blocking_items_edge_is_retained() {
    let mut store = open_seeded();
    seed_ticket(&mut store, "t1", "tk-1", 1);
    insert_fixture_item(
        &mut store,
        FixtureItem {
            id: "finished",
            display: "tk-2",
            title: "Finished",
            status: "done",
            created_seq: 2,
            ..FixtureItem::default()
        },
    )
    .unwrap();
    insert_dependency(&mut store, "finished", "t1").unwrap();

    let graph = read_graph(&store, "t1", false).unwrap();

    // A done Blocking Item resolves readiness but keeps its Dependency,
    // so the resulting backend graph still carries the edge.
    assert_eq!(edges(&graph), vec![("t1", "finished")]);
    assert_eq!(graph.items[1].status, ItemStatus::Done);
}

#[test]
fn edges_are_captured_in_both_directions() {
    let mut store = open_seeded();
    seed_ticket(&mut store, "blocker", "tk-1", 1);
    seed_ticket(&mut store, "t1", "tk-2", 2);
    seed_ticket(&mut store, "blocked", "tk-3", 3);
    insert_dependency(&mut store, "blocker", "t1").unwrap();
    insert_dependency(&mut store, "t1", "blocked").unwrap();

    let graph = read_graph(&store, "t1", false).unwrap();

    assert_eq!(item_ids(&graph), vec!["blocker", "t1", "blocked"]);
    let mut found = edges(&graph);
    found.sort_unstable();
    assert_eq!(found, vec![("blocked", "t1"), ("t1", "blocker")]);
}

#[test]
fn a_dependency_between_two_children_is_captured_once() {
    let mut store = open_seeded();
    seed_epic(&mut store, "epic", "tk-1", 1);
    seed_child(&mut store, "first", "tk-2", "epic", 2);
    seed_child(&mut store, "second", "tk-3", "epic", 3);
    insert_dependency(&mut store, "first", "second").unwrap();

    let graph = read_graph(&store, "epic", true).unwrap();

    assert_eq!(edges(&graph), vec![("second", "first")]);
}

#[test]
fn every_item_carries_its_backend_binding() {
    let mut store = open_seeded();
    seed_epic(&mut store, "epic", "tk-1", 1);
    seed_child(&mut store, "plain-local", "tk-2", "epic", 2);
    seed_child(&mut store, "pending", "tk-3", "epic", 3);
    insert_fixture_mutation(
        &mut store,
        FixtureMutation {
            mutation_type: "promote_ticket",
            item_id: "pending",
            payload_json: &MutationPayload::Promotion(Promotion {
                title: "Child".into(),
                body: String::new(),
                backend_kind: "github".into(),
            })
            .to_json_string(),
            ..FixtureMutation::default()
        },
    )
    .unwrap();
    insert_fixture_item(
        &mut store,
        FixtureItem {
            id: "adopted",
            display: "gh-9",
            title: "Adopted",
            origin: "backend",
            backend_kind: Some("github"),
            backend_key: Some("9"),
            container_id: Some("epic"),
            created_seq: 4,
            ..FixtureItem::default()
        },
    )
    .unwrap();

    let graph = read_graph(&store, "epic", true).unwrap();

    let intents: Vec<&BackendBinding> =
        graph.items.iter().map(|i| &i.backend_binding).collect();
    assert_eq!(
        intents,
        vec![
            &BackendBinding::Local,
            &BackendBinding::Local,
            &BackendBinding::PendingPromotion {
                backend_kind: "github".into()
            },
            &BackendBinding::Backend {
                backend_kind: "github".into()
            },
        ]
    );
}

// ── Outbox commit ─────────────────────────────────────────────────────

fn seeded_rng() -> StdRng {
    StdRng::seed_from_u64(7)
}

fn commit_plan_for_test(
    store: &mut Store,
    plan: &PromotionPlan,
    expected_kind: BackendKind,
    rng: &mut StdRng,
    now: &str,
) -> Result<Option<String>, CommitPlanError> {
    commit_plan(store, plan, expected_kind, rng, now)
}

fn mutation_seq(store: &Store) -> i64 {
    store.counter(Counter::Mutation).unwrap()
}

/// A `promote_ticket` draft naming `item_id`. The payload shape is not
/// under test here — every draft reuses the same Promotion payload so
/// the tests can focus on ordering, stamping, and atomicity.
fn draft(item_id: &str) -> MutationDraft {
    MutationDraft {
        mutation_type: MutationType::PromoteTicket,
        item_id: item_id.to_owned(),
        item_class: ItemClass::Ticket,
        payload: MutationPayload::Promotion(Promotion {
            title: "T".into(),
            body: String::new(),
            backend_kind: "github".into(),
        }),
    }
}

fn seed_recovery(
    store: &mut Store,
    id: &str,
    display: &str,
    sequence: i64,
    state: &str,
    item_class: ItemClass,
    operation_id: Option<&str>,
) {
    insert_fixture_item(
        store,
        FixtureItem {
            id,
            display,
            item_class: item_class.text(),
            ticket_kind: (item_class == ItemClass::Ticket).then_some("task"),
            priority: (item_class == ItemClass::Ticket).then_some("P2"),
            title: "Current title",
            body: "Current body",
            created_seq: sequence,
            ..FixtureItem::default()
        },
    )
    .unwrap();
    seed_promotion_mutation(store, id, sequence, state, item_class, operation_id);
}

/// Append a Promotion Mutation without creating its Item.
fn seed_promotion_mutation(
    store: &mut Store,
    item_id: &str,
    sequence: i64,
    state: &str,
    item_class: ItemClass,
    operation_id: Option<&str>,
) {
    insert_fixture_mutation(
        store,
        FixtureMutation {
            sequence,
            mutation_type: match item_class {
                ItemClass::Ticket => "promote_ticket",
                ItemClass::Epic => "promote_epic",
            },
            item_id,
            item_class: item_class.text(),
            payload_json: r#"{"title":"Original title","body":"Original body","backend_kind":"github"}"#,
            state,
            failure_json: (state == "failed" || state == "applying" || state == "abandoned")
                .then_some(r#"{"detail":"prior"}"#),
            promotion_operation_id: operation_id,
            ..FixtureMutation::default()
        },
    )
    .unwrap();
    let seen = store.counter(Counter::Mutation).unwrap();
    store.set_counter(Counter::Mutation, Some(seen.max(sequence)));
}

fn seed_update_mutation(store: &mut Store, state: &str) {
    insert_fixture_item(
        store,
        FixtureItem {
            id: "backend",
            display: "gh-1",
            origin: "backend",
            backend_kind: Some("github"),
            backend_key: Some("https://github.com/o/r/issues/1"),
            title: "Backend",
            created_seq: 1,
            ..FixtureItem::default()
        },
    )
    .unwrap();
    seed_mutation(store, 1, "backend", state, None);
}

#[test]
fn recoverable_promotion_loads_each_nonterminal_state() {
    for state in ["pending", "failed", "applying"] {
        let mut store = open_seeded();
        seed_recovery(
            &mut store,
            "t1",
            "tk-1",
            4,
            state,
            ItemClass::Ticket,
            Some("op-1"),
        );
        let target = recoverable_promotion(&store, "t1").unwrap();
        assert_eq!(target.sequence, 4);
        assert_eq!(target.state.text(), state);
        assert_eq!(target.outgoing_display_id, "tk-1");
        assert_eq!(target.promotion.title, "Original title");
        assert_eq!(target.operation_id, "op-1");
    }
}

#[test]
fn recoverable_promotion_rejects_missing_operation_and_duplicate_rows() {
    let mut store = open_seeded();
    seed_recovery(&mut store, "t1", "tk-1", 4, "applying", ItemClass::Ticket, None);
    assert!(matches!(
        recoverable_promotion(&store, "t1"),
        Err(RecoveryPromotionError::MissingOperationId(4))
    ));
    insert_fixture_mutation(
        &mut store,
        FixtureMutation {
            sequence: 5,
            mutation_type: "promote_ticket",
            item_id: "t1",
            payload_json: r#"{"title":"T","body":"","backend_kind":"github"}"#,
            state: "pending",
            promotion_operation_id: Some("op-2"),
            ..FixtureMutation::default()
        },
    )
    .unwrap();
    assert!(matches!(
        recoverable_promotion(&store, "t1"),
        Err(RecoveryPromotionError::MultipleNonterminalPromotions {
            first: 4,
            second: 5,
            ..
        })
    ));
}

#[test]
fn reconcile_promotes_atomically_and_forced_convergence_uses_the_operation() {
    for (class, update) in [
        (ItemClass::Ticket, "update_ticket"),
        (ItemClass::Epic, "update_epic"),
    ] {
        let mut store = open_seeded();
        seed_recovery(&mut store, "item", "tk-1", 4, "applying", class, Some("op-1"));
        let target = recoverable_promotion(&store, "item").unwrap();
        reconcile_promotion(
            &mut store,
            &target,
            &receipt("42", "gh-42"),
            true,
            NOW,
        )
        .unwrap();
        let row = the_item(&store, "item");
        let values: (String, String, String, String, Option<String>, i64) = (
            row.display_id.clone(),
            row.origin.text().into(),
            row.backend_key.clone().unwrap(),
            the_mutation(&store, 4).state.text().into(),
            the_mutation(&store, 4).failure_json.clone(),
            cursor(&store),
        );
        assert_eq!(
            values,
            (
                "gh-42".into(),
                "backend".into(),
                "42".into(),
                "applied".into(),
                None,
                4
            )
        );
        let appended = the_mutation(&store, 5);
        let update_row: (String, String, String, String) = (
            appended.mutation_type.text().into(),
            appended.payload_json.clone(),
            appended.promotion_operation_id.clone().unwrap(),
            appended.state.text().into(),
        );
        assert_eq!(update_row.0, update);
        assert_eq!(update_row.1, r#"{"title":"Current title","body":"Current body"}"#);
        assert_eq!(update_row.2, "op-1");
        assert_eq!(update_row.3, "pending");
    }
}

#[test]
fn exact_reconciliation_does_not_append_convergence() {
    let mut store = open_seeded();
    seed_recovery(
        &mut store,
        "item",
        "tk-1",
        4,
        "applying",
        ItemClass::Ticket,
        Some("op-1"),
    );
    let target = recoverable_promotion(&store, "item").unwrap();

    reconcile_promotion(
        &mut store,
        &target,
        &receipt("42", "gh-42"),
        false,
        NOW,
    )
    .unwrap();

    assert_eq!(store.mutation_count(), 1);
    assert_eq!(mutation_seq(&store), 4);
}

#[test]
fn reconcile_refuses_an_earlier_nonterminal_but_allows_terminal_history() {
    for state in ["pending", "failed", "applying"] {
        let mut store = open_seeded();
        seed_recovery(
            &mut store,
            "earlier",
            "tk-1",
            1,
            state,
            ItemClass::Ticket,
            Some("old"),
        );
        seed_recovery(
            &mut store,
            "target",
            "tk-2",
            4,
            "applying",
            ItemClass::Ticket,
            Some("op-1"),
        );
        let target = recoverable_promotion(&store, "target").unwrap();
        assert!(matches!(
            reconcile_promotion(
                &mut store,
                &target,
                &receipt("42", "gh-42"),
                false,
                NOW
            ),
            Err(RecoveryPromotionError::EarlierNonterminal { sequence: 1, .. })
        ));
    }
    for state in ["applied", "cancelled"] {
        let mut store = open_seeded();
        seed_recovery(
            &mut store,
            "earlier",
            "tk-1",
            1,
            state,
            ItemClass::Ticket,
            Some("old"),
        );
        seed_recovery(
            &mut store,
            "target",
            "tk-2",
            4,
            "applying",
            ItemClass::Ticket,
            Some("op-1"),
        );
        let target = recoverable_promotion(&store, "target").unwrap();
        reconcile_promotion(
            &mut store,
            &target,
            &receipt("42", "gh-42"),
            false,
            NOW,
        )
        .unwrap();
    }
}

#[test]
fn reconcile_cannot_jump_an_earlier_nonpromotion_mutation() {
    let mut store = open_seeded();
    seed_update_mutation(&mut store, "pending");
    seed_recovery(
        &mut store,
        "target",
        "tk-2",
        4,
        "applying",
        ItemClass::Ticket,
        Some("op-1"),
    );
    let target = recoverable_promotion(&store, "target").unwrap();

    assert!(matches!(
        reconcile_promotion(
            &mut store,
            &target,
            &receipt("https://github.com/o/r/issues/42", "gh-42"),
            false,
            NOW,
        ),
        Err(RecoveryPromotionError::EarlierNonterminal {
            sequence: 1,
            state: MutationState::Pending,
        })
    ));
    let row = the_item(&store, "target");
    let unchanged: (String, String, Option<String>, String, i64) = (
        row.display_id.clone(),
        row.origin.text().into(),
        row.backend_key.clone(),
        the_mutation(&store, 4).state.text().into(),
        cursor(&store),
    );
    assert_eq!(
        unchanged,
        ("tk-2".into(), "local".into(), None, "applying".into(), 0)
    );
}

#[test]
fn retry_returns_a_target_to_pending_without_moving_the_cursor() {
    // `pending` is the idempotent re-run; `applying` is the state the
    // command exists for.
    for state in ["pending", "applying"] {
        let mut store = open_seeded();
        seed_recovery(
            &mut store,
            "target",
            "tk-1",
            4,
            state,
            ItemClass::Ticket,
            Some("op-1"),
        );
        let target = recoverable_promotion(&store, "target").unwrap();
        retry_promotion(&mut store, &target, NOW).unwrap();
        let row: (String, Option<String>, i64) = (
            the_mutation(&store, 4).state.text().into(),
            the_mutation(&store, 4).failure_json.clone(),
            cursor(&store),
        );
        assert_eq!(row, ("pending".into(), None, 0));
    }
}

/// Retry carries duplicate-creation risk, so it is reserved for an
/// indeterminate outcome. A rejected Promotion has certified no effect and
/// is already retried by ordinary sync.
#[test]
fn retry_refuses_a_failed_promotion() {
    let mut store = open_seeded();
    seed_recovery(
        &mut store,
        "target",
        "tk-1",
        4,
        "failed",
        ItemClass::Ticket,
        Some("op-1"),
    );
    let target = recoverable_promotion(&store, "target").unwrap();

    assert!(matches!(
        retry_promotion(&mut store, &target, NOW),
        Err(RecoveryPromotionError::RetryNotApplying {
            sequence: 4,
            state: MutationState::Failed,
        })
    ));
    let row: (String, Option<String>) = (
        the_mutation(&store, 4).state.text().into(),
        the_mutation(&store, 4).failure_json.clone(),
    );
    assert_eq!(
        row,
        ("failed".into(), Some(r#"{"detail":"prior"}"#.into())),
        "the refusal leaves the recorded Mutation Failure intact"
    );
}

#[test]
fn retry_refuses_every_earlier_nonterminal_state() {
    for state in ["pending", "failed", "applying"] {
        let mut store = open_seeded();
        seed_recovery(
            &mut store,
            "earlier",
            "tk-1",
            1,
            state,
            ItemClass::Ticket,
            Some("op-1"),
        );
        seed_recovery(
            &mut store,
            "target",
            "tk-2",
            4,
            "applying",
            ItemClass::Ticket,
            Some("op-2"),
        );
        let target = recoverable_promotion(&store, "target").unwrap();

        assert!(matches!(
            retry_promotion(&mut store, &target, NOW),
            Err(RecoveryPromotionError::EarlierNonterminal {
                sequence: 1,
                state: actual
            }) if actual.text() == state
        ));
        let target_state = the_mutation(&store, 4).state.text();
        assert_eq!(target_state, "applying");
    }
}

#[test]
fn retry_cannot_jump_an_earlier_nonpromotion_mutation() {
    let mut store = open_seeded();
    seed_update_mutation(&mut store, "failed");
    seed_recovery(
        &mut store,
        "target",
        "tk-2",
        4,
        "applying",
        ItemClass::Ticket,
        Some("op-1"),
    );
    let target = recoverable_promotion(&store, "target").unwrap();

    assert!(matches!(
        retry_promotion(&mut store, &target, NOW),
        Err(RecoveryPromotionError::EarlierNonterminal {
            sequence: 1,
            state: MutationState::Failed,
        })
    ));
    let unchanged: (String, i64) =
        (the_mutation(&store, 4).state.text().into(), cursor(&store));
    assert_eq!(unchanged, ("applying".into(), 0));
}

#[test]
fn recovery_capture_and_retry_preserve_queue_identity() {
    let mut store = open_seeded();
    seed_recovery(
        &mut store,
        "first",
        "tk-1",
        2,
        "pending",
        ItemClass::Ticket,
        Some("op-1"),
    );
    seed_recovery(
        &mut store,
        "second",
        "tk-2",
        4,
        "failed",
        ItemClass::Ticket,
        Some("op-2"),
    );
    assert_eq!(
        capture_recovery_mappings(&store).unwrap(),
        vec![
            RecoveryPromotionMapping {
                sequence: 2,
                item_id: "first".into(),
                outgoing_display_id: "tk-1".into(),
                item_class: ItemClass::Ticket
            },
            RecoveryPromotionMapping {
                sequence: 4,
                item_id: "second".into(),
                outgoing_display_id: "tk-2".into(),
                item_class: ItemClass::Ticket
            },
        ]
    );
    transition(
        &mut store,
        TransitionRequest {
            sequence: 2,
            from: MutationState::Pending,
            to: MutationState::Applying,
            failure: None,
            now: NOW,
        },
    )
    .unwrap();
    let target = recoverable_promotion(&store, "second").unwrap();
    assert!(matches!(
        retry_promotion(&mut store, &target, NOW),
        Err(RecoveryPromotionError::EarlierNonterminal {
            sequence: 2,
            state: MutationState::Applying
        })
    ));
}

#[test]
fn reconcile_rolls_back_on_remote_change_or_display_collision() {
    let mut store = open_seeded();
    seed_recovery(
        &mut store,
        "target",
        "tk-1",
        4,
        "applying",
        ItemClass::Ticket,
        Some("op-1"),
    );
    let target = recoverable_promotion(&store, "target").unwrap();
    store.set_remote_kind(Some(BackendKind::Jira));
    assert!(matches!(
        reconcile_promotion(
            &mut store,
            &target,
            &receipt("42", "gh-42"),
            false,
            NOW
        ),
        Err(RecoveryPromotionError::RemoteChanged { .. })
    ));
    assert_eq!(the_mutation(&store, 4).state.text(), "applying");

    store.set_remote_kind(Some(BackendKind::Github));
    insert_fixture_item(
        &mut store,
        FixtureItem {
            id: "squatter",
            display: "gh-42",
            title: "taken",
            created_seq: 5,
            ..FixtureItem::default()
        },
    )
    .unwrap();
    assert!(matches!(
        reconcile_promotion(
            &mut store,
            &target,
            &receipt("42", "gh-42"),
            false,
            NOW
        ),
        // A claimed identity is diagnosed before any write, so the
        // operator never sees the underlying uniqueness constraint.
        Err(RecoveryPromotionError::BackendIdentityTaken { ref display_id })
            if display_id == "gh-42"
    ));
    let row: (String, String) = (
        the_item(&store, "target").origin.text().into(),
        the_mutation(&store, 4).state.text().into(),
    );
    assert_eq!(row, ("local".into(), "applying".into()));
}

#[test]
fn reconcile_refuses_an_identity_another_item_already_holds() {
    for (id, display, backend_key) in [
        // Adopt imported the same object under its own Display ID.
        ("adopted", "gh-9", Some("https://github.com/o/r/issues/42")),
        // A different object already owns the incoming Display ID.
        ("other", "gh-42", Some("https://github.com/o/r/issues/9")),
    ] {
        let mut store = open_seeded();
        seed_recovery(
            &mut store,
            "target",
            "tk-1",
            4,
            "applying",
            ItemClass::Ticket,
            Some("op-1"),
        );
        insert_fixture_item(
            &mut store,
            FixtureItem {
                id,
                display,
                title: "Already tracked",
                origin: "backend",
                backend_kind: Some("github"),
                backend_key,
                created_seq: 5,
                ..FixtureItem::default()
            },
        )
        .unwrap();
        let target = recoverable_promotion(&store, "target").unwrap();

        let err = reconcile_promotion(
            &mut store,
            &target,
            &receipt("https://github.com/o/r/issues/42", "gh-42"),
            // Force cannot buy past a claimed identity.
            true,
            NOW,
        )
        .unwrap_err();

        assert!(
            matches!(
                err,
                RecoveryPromotionError::BackendIdentityTaken { ref display_id }
                    if display_id == "gh-42"
            ),
            "{id} should claim the identity, got {err:?}"
        );
        let state = the_mutation(&store, 4).state.text();
        assert_eq!(state, "applying", "{id}: the Promotion is untouched");
    }
}

#[test]
fn reconcile_refuses_a_target_that_is_no_longer_local() {
    let mut store = open_seeded();
    seed_recovery(
        &mut store,
        "target",
        "tk-1",
        4,
        "applying",
        ItemClass::Ticket,
        Some("op-1"),
    );
    let target = recoverable_promotion(&store, "target").unwrap();
    let mut store = open_seeded();
    insert_fixture_item(
        &mut store,
        FixtureItem {
            id: "target",
            display: "tk-1",
            title: "Current title",
            body: "Current body",
            origin: "backend",
            backend_kind: Some("github"),
            backend_key: Some("existing"),
            created_seq: 4,
            ..FixtureItem::default()
        },
    )
    .unwrap();
    seed_promotion_mutation(&mut store, "target", 4, "applying", ItemClass::Ticket, Some("op-1"));

    assert!(matches!(
        reconcile_promotion(
            &mut store,
            &target,
            &receipt("42", "gh-42"),
            false,
            NOW,
        ),
        Err(RecoveryPromotionError::TargetNotLocal { sequence: 4 })
    ));
    let state = the_mutation(&store, 4).state.text();
    assert_eq!(state, "applying");
}

#[test]
fn forced_reconciliation_rolls_back_when_convergence_cannot_append() {
    let mut store = open_seeded();
    seed_recovery(
        &mut store,
        "target",
        "tk-1",
        4,
        "applying",
        ItemClass::Ticket,
        Some("op-1"),
    );
    let target = recoverable_promotion(&store, "target").unwrap();
    store.set_counter(Counter::Mutation, None);

    assert!(matches!(
        reconcile_promotion(
            &mut store,
            &target,
            &receipt("42", "gh-42"),
            true,
            NOW,
        ),
        Err(RecoveryPromotionError::Append(
            AppendError::Sequence(_)
        ))
    ));
    let item = the_item(&store, "target");
    let row: (String, String, String, i64, usize) = (
        item.display_id.clone(),
        item.origin.text().into(),
        the_mutation(&store, 4).state.text().into(),
        cursor(&store),
        aliases(&store, "target").len(),
    );
    assert_eq!(
        row,
        ("tk-1".into(), "local".into(), "applying".into(), 0, 0)
    );
    assert_eq!(store.mutation_count(), 1);
}

#[test]
fn commit_promotion_plan_on_an_empty_plan_mints_no_operation() {
    let mut store = open_seeded();

    let result = commit_plan_for_test(
        &mut store,
        &PromotionPlan::default(),
        BackendKind::Github,
        &mut seeded_rng(),
        NOW,
    )
    .unwrap();

    assert_eq!(
        result, None,
        "re-invoking promote on already-resolved work must not mint an operation that owns no Mutations"
    );
    assert_eq!(store.mutation_count(), 0);
}

#[test]
fn commit_promotion_plan_refuses_when_the_remote_changed_after_planning() {
    let mut store = open_seeded();
    seed_ticket(&mut store, "t1", "tk-1", 1);
    let plan = PromotionPlan {
        mutations: vec![draft("t1")],
    };
    store.set_remote_kind(None);

    let error = commit_plan_for_test(
        &mut store,
        &plan,
        BackendKind::Github,
        &mut seeded_rng(),
        NOW,
    )
    .unwrap_err();

    assert!(matches!(
        error,
        CommitPlanError::RemoteChanged {
            expected: BackendKind::Github,
            actual: None,
        }
    ));
    assert_eq!(store.mutation_count(), 0);
    assert_eq!(mutation_seq(&store), 0);
}

#[test]
fn commit_promotion_plan_refuses_a_different_retained_backend_kind() {
    let mut store = open_seeded();
    seed_ticket(&mut store, "t1", "tk-1", 1);
    seed_ticket(&mut store, "t2", "tk-2", 2);
    insert_fixture_mutation(
        &mut store,
        FixtureMutation {
            sequence: 1,
            mutation_type: "promote_ticket",
            item_id: "t1",
            payload_json: r#"{"title":"T","body":"","backend_kind":"jira"}"#,
            state: "pending",
            ..FixtureMutation::default()
        },
    )
    .unwrap();
    let plan = PromotionPlan {
        mutations: vec![draft("t2")],
    };

    let error = commit_plan_for_test(
        &mut store,
        &plan,
        BackendKind::Github,
        &mut seeded_rng(),
        NOW,
    )
    .unwrap_err();

    assert!(matches!(
        error,
        CommitPlanError::BackendCohort(
            BackendCohortError::BackendKindMismatch {
                expected: BackendKind::Github,
                retained: BackendKind::Jira,
            }
        )
    ));
    assert_eq!(store.mutation_count(), 1);
    assert_eq!(mutation_seq(&store), 0);
}

#[test]
fn commit_promotion_plan_appends_drafts_in_plan_order() {
    let mut store = open_seeded();
    seed_ticket(&mut store, "t1", "tk-1", 1);
    seed_ticket(&mut store, "t2", "tk-2", 2);
    seed_ticket(&mut store, "t3", "tk-3", 3);
    // Deliberately out of created_seq order: the outbox must follow the
    // plan's order, not the Items' creation order.
    let plan = PromotionPlan {
        mutations: vec![draft("t3"), draft("t1"), draft("t2")],
    };

    commit_plan_for_test(
        &mut store,
        &plan,
        BackendKind::Github,
        &mut seeded_rng(),
        NOW,
    )
    .unwrap();

    let ids: Vec<String> = (0..store.mutation_count())
        .map(|i| store.mutation(i).item_id.clone())
        .collect();
    assert_eq!(ids, vec!["t3", "t1", "t2"]);
}

#[test]
fn commit_promotion_plan_can_queue_behind_an_applying_creation() {
    let mut store = open_seeded();
    seed_ticket(&mut store, "t1", "tk-1", 1);
    seed_ticket(&mut store, "t2", "tk-2", 2);
    insert_fixture_mutation(
        &mut store,
        FixtureMutation {
            sequence: 1,
            mutation_type: "promote_ticket",
            item_id: "t1",
            payload_json: r#"{"title":"T","body":"","backend_kind":"github"}"#,
            state: "applying",
            promotion_operation_id: Some("op-1"),
            ..FixtureMutation::default()
        },
    )
    .unwrap();
    store.set_counter(Counter::Mutation, Some(1));

    let operation_id = commit_plan_for_test(
        &mut store,
        &PromotionPlan {
            mutations: vec![draft("t2")],
        },
        BackendKind::Github,
        &mut seeded_rng(),
        NOW,
    )
    .unwrap()
    .unwrap();

    let rows: Vec<(i64, String, String, String, Option<String>)> = (0..store.mutation_count())
        .map(|i| store.mutation(i))
        .map(|m| {
            (
                m.sequence,
                m.item_id.clone(),
                m.state.text().to_owned(),
                m.mutation_type.text().to_owned(),
                m.promotion_operation_id.clone(),
            )
        })
        .collect();
    assert_eq!(
        rows,
        vec![
            (
                1,
                "t1".into(),
                "applying".into(),
                "promote_ticket".into(),
                Some("op-1".into()),
            ),
            (
                2,
                "t2".into(),
                "pending".into(),
                "promote_ticket".into(),
                Some(operation_id),
            ),
        ]
    );
}

#[test]
fn commit_promotion_plan_stamps_every_mutation_with_the_returned_operation() {
    let mut store = open_seeded();
    seed_ticket(&mut store, "t1", "tk-1", 1);
    seed_ticket(&mut store, "t2", "tk-2", 2);
    let plan = PromotionPlan {
        mutations: vec![draft("t1"), draft("t2")],
    };

    let operation_id = commit_plan_for_test(
        &mut store,
        &plan,
        BackendKind::Github,
        &mut seeded_rng(),
        NOW,
    )
    .unwrap()
    .expect("a non-empty plan mints an operation");

    let stamped: Vec<Option<String>> = (0..store.mutation_count())
        .map(|i| store.mutation(i).promotion_operation_id.clone())
        .collect();
    assert_eq!(
        stamped,
        vec![Some(operation_id.clone()), Some(operation_id)]
    );
}

#[test]
fn commit_promotion_plan_rolls_back_the_whole_batch_on_a_mid_batch_failure() {
    let mut store = open_seeded();
    seed_ticket(&mut store, "t1", "tk-1", 1);
    let plan = PromotionPlan {
        mutations: vec![draft("t1"), draft("missing")],
    };

    let before = mutation_seq(&store);
    let err = commit_plan_for_test(
        &mut store,
        &plan,
        BackendKind::Github,
        &mut seeded_rng(),
        NOW,
    )
    .unwrap_err();

    assert!(
        matches!(
            err,
            CommitPlanError::Append(AppendError::Sqlite(_))
        ),
        "expected a foreign key violation on the second draft, got {err:?}"
    );
    assert_eq!(
        store.mutation_count(),
        0,
        "the draft that appended before the failure must not survive the rollback"
    );
    // The first draft appended before the second failed, consuming a
    // Mutation Sequence from a different table than the row it wrote. An
    // empty log alone does not prove that allocation came back; without it
    // the next `tk promote` would open at a gap.
    assert_eq!(
        mutation_seq(&store),
        before,
        "the rollback must return the Mutation Sequence counter too"
    );
}

#[test]
fn commit_promotion_plan_leaves_pre_existing_mutations_undisturbed() {
    let mut store = open_seeded();
    seed_ticket(&mut store, "existing", "tk-1", 1);
    seed_ticket(&mut store, "t2", "tk-2", 2);

    append(
        &mut store,
        AppendRequest {
            mutation_type: MutationType::UpdateTicket,
            item_id: "existing",
            item_class: ItemClass::Ticket,
            payload: &MutationPayload::UpdateTitleBody(TitleBody {
                title: "Prior".into(),
                body: String::new(),
            }),
            promotion_operation_id: None,
            now_iso: NOW,
        },
    )
    .unwrap();

    let plan = PromotionPlan {
        mutations: vec![draft("t2")],
    };
    commit_plan_for_test(
        &mut store,
        &plan,
        BackendKind::Github,
        &mut seeded_rng(),
        NOW,
    )
    .unwrap();

    let first = store.mutation(0);
    assert_eq!(first.item_id, "existing");
    let (sequence, promotion_operation_id, mutation_type) = (
        first.sequence,
        first.promotion_operation_id.clone(),
        first.mutation_type.text(),
    );
    assert_eq!(
        sequence, 1,
        "the pre-existing row keeps its original sequence"
    );
    assert_eq!(promotion_operation_id, None);
    assert_eq!(mutation_type, "update_ticket");

    assert_eq!(store.mutation(1).item_id, "t2");
    let new_sequence = store.mutation(1).sequence;
    assert_eq!(
        new_sequence, 2,
        "the new append continues the counter rather than restarting it"
    );
}

// ── Post-sync operation state ─────────────────────────────────────────

/// Seed one Mutation Log row directly, so a test can place states and
/// Promotion Operations the outbox writer alone could not produce.
fn seed_mutation(
    store: &mut Store,
    sequence: i64,
    item_id: &str,
    state: &str,
    op: Option<&str>,
) {
    insert_fixture_mutation(
        store,
        FixtureMutation {
            sequence,
            mutation_type: "update_ticket",
            item_id,
            payload_json: r#"{"title":"T","body":""}"#,
            state,
            failure_json: (state == "failed").then_some(r#"{"detail":"boom"}"#),
            promotion_operation_id: op,
            ..FixtureMutation::default()
        },
    )
    .unwrap();
}

#[test]
fn no_applicable_mutation_when_the_log_is_drained() {
    let mut store = open_seeded();
    seed_ticket(&mut store, "t1", "tk-1", 1);
    seed_mutation(&mut store, 1, "t1", "applied", None);
    seed_mutation(&mut store, 2, "t1", "skipped", None);

    assert_eq!(earliest_applicable_mutation(&store), None);
}

#[test]
fn the_earliest_applicable_mutation_may_predate_the_promotion_operation() {
    let mut store = open_seeded();
    seed_ticket(&mut store, "older", "tk-1", 1);
    seed_ticket(&mut store, "t2", "tk-2", 2);
    seed_mutation(&mut store, 1, "older", "failed", None);
    seed_mutation(&mut store, 2, "t2", "pending", Some("op-1"));

    assert_eq!(
        earliest_applicable_mutation(&store),
        Some(MutationSummary {
            sequence: 1,
            state: MutationState::Failed,
            target_display_id: "tk-1".to_owned(),
        })
    );
}

#[test]
fn an_applying_mutation_is_the_earliest_applicable_blocker() {
    let mut store = open_seeded();
    seed_recovery(
        &mut store,
        "t1",
        "tk-1",
        3,
        "applying",
        ItemClass::Ticket,
        Some("op-1"),
    );

    assert_eq!(
        earliest_applicable_mutation(&store),
        Some(MutationSummary {
            sequence: 3,
            state: MutationState::Applying,
            target_display_id: "tk-1".into(),
        })
    );
}

#[test]
fn an_applied_row_ahead_of_a_pending_one_is_not_the_blocker() {
    let mut store = open_seeded();
    seed_ticket(&mut store, "t1", "tk-1", 1);
    seed_mutation(&mut store, 1, "t1", "applied", Some("op-1"));
    seed_mutation(&mut store, 2, "t1", "pending", Some("op-1"));

    assert_eq!(
        earliest_applicable_mutation(&store)
            .unwrap()
            .sequence,
        2
    );
}

#[test]
fn a_fully_applied_operation_has_no_unresolved_mutations() {
    let mut store = open_seeded();
    seed_ticket(&mut store, "t1", "tk-1", 1);
    seed_mutation(&mut store, 1, "t1", "applied", Some("op-1"));
    seed_mutation(&mut store, 2, "t1", "applied", Some("op-1"));

    assert!(
        unresolved_in_operation(&store, "op-1").is_empty(),
        "an operation whose every Mutation applied is resolved"
    );
}

#[test]
fn unresolved_operation_mutations_ignore_other_operations() {
    let mut store = open_seeded();
    seed_ticket(&mut store, "t1", "tk-1", 1);
    seed_ticket(&mut store, "t2", "tk-2", 2);
    seed_mutation(&mut store, 1, "t1", "pending", None);
    seed_mutation(&mut store, 2, "t2", "failed", Some("other"));
    seed_mutation(&mut store, 3, "t1", "failed", Some("op-1"));
    seed_mutation(&mut store, 4, "t1", "pending", Some("op-1"));

    assert_eq!(
        unresolved_in_operation(&store, "op-1"),
        vec![
            MutationSummary {
                sequence: 3,
                state: MutationState::Failed,
                target_display_id: "tk-1".to_owned(),
            },
            MutationSummary {
                sequence: 4,
                state: MutationState::Pending,
                target_display_id: "tk-1".to_owned(),
            },
        ]
    );
}

// ── Promotion Cancellation ─────────────────────────────────

/// Seed one Mutation whose payload names a counterpart, so the withdrawn
/// set can be exercised on the roles it is derived from.
fn seed_counterpart_mutation(
    store: &mut Store,
    sequence: i64,
    mutation_type: MutationType,
    item_id: &str,
    counterpart_id: &str,
    op: Option<&str>,
) {
    // `remove_ticket_from_epic` addresses no counterpart yet still carries
    // an `EpicRef`, which is exactly the distinction under test.
    let payload = match mutation_type.addressed_counterpart() {
        AddressedCounterpart::BlockingItem => MutationPayload::DependencyRef(DependencyRef {
            blocking_id: counterpart_id.into(),
        }),
        AddressedCounterpart::Epic | AddressedCounterpart::Nothing => {
            MutationPayload::EpicRef(EpicRef {
                epic_id: counterpart_id.into(),
            })
        }
    }
    .to_json_string();
    insert_fixture_mutation(
        store,
        FixtureMutation {
            sequence,
            mutation_type: mutation_type.text(),
            item_id,
            payload_json: &payload,
            promotion_operation_id: op,
            ..FixtureMutation::default()
        },
    )
    .unwrap();
}

fn state_of(store: &Store, sequence: i64) -> MutationState {
    the_mutation(store, sequence).state
}

fn the_mutation(store: &Store, sequence: i64) -> &Mutation {
    store.mutation(store.find_mutation(sequence).unwrap())
}

fn cursor(store: &Store) -> i64 {
    store.cursor().unwrap().last_applied_sequence
}

fn aliases(store: &Store, item_id: &str) -> Vec<String> {
    (0..store.alias_count())
        .map(|i| store.alias(i))
        .filter(|alias| alias.item_id == item_id)
        .map(|alias| alias.value.clone())
        .collect()
}

fn cancel(store: &mut Store, item_id: &str) -> Result<CancellationReport, CancelPromotionError> {
    cancel_promotion(store, item_id, NOW)
}

#[test]
fn cancelling_withdraws_the_whole_operation_not_one_promotion() {
    // The unit is the invocation: a regretted `--children` Epic Promotion
    // must not leave its children to be created as bare Backend Tickets.
    let mut store = open_seeded();
    seed_recovery(
        &mut store,
        "e1",
        "tk-1",
        1,
        "failed",
        ItemClass::Epic,
        Some("op-1"),
    );
    seed_recovery(
        &mut store,
        "c1",
        "tk-2",
        2,
        "pending",
        ItemClass::Ticket,
        Some("op-1"),
    );

    let report = cancel(&mut store, "e1").unwrap();

    assert_eq!(
        report
            .cancelled_promotions
            .iter()
            .map(|p| p.display_id.as_str())
            .collect::<Vec<_>>(),
        vec!["tk-1", "tk-2"]
    );
    assert_eq!(state_of(&store, 1), MutationState::Cancelled);
    assert_eq!(state_of(&store, 2), MutationState::Cancelled);
}

#[test]
fn a_cancelled_item_returns_to_local_backend_binding() {
    let mut store = open_seeded();
    seed_recovery(
        &mut store,
        "t1",
        "tk-1",
        1,
        "failed",
        ItemClass::Ticket,
        Some("op-1"),
    );

    cancel(&mut store, "t1").unwrap();

    assert_eq!(
        resolve_backend_binding(&store, "t1").unwrap(),
        BackendBinding::Local
    );
}

#[test]
fn a_withdrawal_keeps_the_failure_evidence_that_motivated_it() {
    let mut store = open_seeded();
    seed_recovery(
        &mut store,
        "t1",
        "tk-1",
        1,
        "failed",
        ItemClass::Ticket,
        Some("op-1"),
    );

    cancel(&mut store, "t1").unwrap();

    let failure = the_mutation(&store, 1).failure_json.clone();
    assert_eq!(failure.as_deref(), Some(r#"{"detail":"prior"}"#));
}

#[test]
fn adding_membership_to_a_cancelled_epic_is_withdrawn_and_removing_it_is_not() {
    // The withdrawn set's defining asymmetry: a Backend Ticket's addition
    // needs the Epic's address, its removal clears a 0..1 slot.
    let mut store = open_seeded();
    seed_recovery(
        &mut store,
        "e1",
        "tk-1",
        1,
        "failed",
        ItemClass::Epic,
        Some("op-1"),
    );
    seed_backend_ticket(&mut store, "backend", "gh-9", "9", 2);
    seed_counterpart_mutation(
        &mut store,
        2,
        MutationType::AddTicketToEpic,
        "backend",
        "e1",
        None,
    );
    seed_counterpart_mutation(
        &mut store,
        3,
        MutationType::RemoveTicketFromEpic,
        "backend",
        "e1",
        None,
    );

    let report = cancel(&mut store, "e1").unwrap();

    assert_eq!(state_of(&store, 2), MutationState::Cancelled);
    assert_eq!(
        state_of(&store, 3),
        MutationState::Pending,
        "clearing Epic Membership resolves without the Epic's address"
    );
    assert_eq!(
        report
            .withdrawn
            .iter()
            .map(|m| (m.sequence, m.target_display_id.as_str(), m.target_cancelled))
            .collect::<Vec<_>>(),
        vec![(2, "gh-9", false)],
        "intent lost for an object that really exists upstream is enumerated"
    );
}

#[test]
fn a_dependency_naming_a_cancelled_blocking_item_is_withdrawn() {
    // `remove_dependency`, because a live `add_dependency` still has its
    // `dependencies` row and so meets the Dependency refusal instead.
    let mut store = open_seeded();
    seed_recovery(
        &mut store,
        "t1",
        "tk-1",
        1,
        "failed",
        ItemClass::Ticket,
        Some("op-1"),
    );
    seed_recovery(
        &mut store,
        "t2",
        "tk-2",
        2,
        "pending",
        ItemClass::Ticket,
        Some("op-2"),
    );
    seed_counterpart_mutation(
        &mut store,
        3,
        MutationType::RemoveDependency,
        "t2",
        "t1",
        Some("op-2"),
    );

    let report = cancel(&mut store, "t1").unwrap();

    assert_eq!(state_of(&store, 3), MutationState::Cancelled);
    assert_eq!(
        state_of(&store, 2),
        MutationState::Pending,
        "cancellation is one hop: another item's Promotion survives"
    );
    assert_eq!(
        report
            .withdrawn
            .iter()
            .map(|m| (m.sequence, m.target_cancelled))
            .collect::<Vec<_>>(),
        vec![(3, false)]
    );
}

#[test]
fn a_mutation_targeting_a_cancelled_item_is_counted_not_enumerated() {
    let mut store = open_seeded();
    seed_recovery(
        &mut store,
        "t1",
        "tk-1",
        1,
        "pending",
        ItemClass::Ticket,
        Some("op-1"),
    );
    seed_mutation(&mut store, 2, "t1", "pending", Some("op-1"));

    let report = cancel(&mut store, "t1").unwrap();

    assert_eq!(state_of(&store, 2), MutationState::Cancelled);
    assert_eq!(
        report
            .withdrawn
            .iter()
            .map(|m| (m.sequence, m.target_cancelled))
            .collect::<Vec<_>>(),
        vec![(2, true)]
    );
}

#[test]
fn an_applying_promotion_is_abandoned_alongside_the_operations_cancellations() {
    let mut store = open_seeded();
    seed_recovery(
        &mut store,
        "t1",
        "tk-1",
        1,
        "failed",
        ItemClass::Ticket,
        Some("op-1"),
    );
    seed_recovery(
        &mut store,
        "t2",
        "tk-2",
        2,
        "applying",
        ItemClass::Ticket,
        Some("op-1"),
    );

    let report = cancel(&mut store, "t1").unwrap();

    assert_eq!(state_of(&store, 1), MutationState::Cancelled);
    assert_eq!(
        state_of(&store, 2),
        MutationState::Abandoned,
        "an unobserved creation is withdrawn into its own state"
    );
    assert_eq!(
        report
            .cancelled_promotions
            .iter()
            .map(|p| p.sequence)
            .collect::<Vec<_>>(),
        vec![1]
    );
    assert_eq!(
        report
            .abandoned_promotions
            .iter()
            .map(|p| p.sequence)
            .collect::<Vec<_>>(),
        vec![2]
    );
}

#[test]
fn abandoning_the_only_promotion_returns_its_item_to_local() {
    let mut store = open_seeded();
    seed_recovery(
        &mut store,
        "t1",
        "tk-1",
        1,
        "applying",
        ItemClass::Ticket,
        Some("op-1"),
    );

    let report = cancel(&mut store, "t1").unwrap();

    assert_eq!(state_of(&store, 1), MutationState::Abandoned);
    assert!(report.cancelled_promotions.is_empty());
    assert_eq!(report.abandoned_promotions.len(), 1);
    assert_eq!(
        resolve_backend_binding(&store, "t1").unwrap(),
        BackendBinding::Local,
        "abandoned is terminal, so the item is no longer Pending Promotion"
    );
}

#[test]
fn a_later_promotion_warns_about_the_latest_abandonment() {
    let mut store = open_seeded();
    seed_recovery(
        &mut store,
        "t1",
        "tk-1",
        1,
        "abandoned",
        ItemClass::Ticket,
        Some("op-1"),
    );
    seed_promotion_mutation(&mut store, "t1", 2, "abandoned", ItemClass::Ticket, Some("op-2"));
    seed_recovery(
        &mut store,
        "t2",
        "tk-2",
        3,
        "failed",
        ItemClass::Ticket,
        Some("op-3"),
    );

    let warned = abandoned_promotions(&store, &["t1".to_owned(), "t2".to_owned()]);

    assert_eq!(
        warned,
        vec![AbandonedPromotion {
            sequence: 2,
            display_id: "tk-1".to_owned(),
        }],
        "the newest unresolved risk is the one to name; a failed Promotion created nothing"
    );
}

#[test]
fn a_later_cancelled_promotion_does_not_clear_an_abandonment() {
    // A cancelled Promotion created nothing, so it cannot clear an earlier
    // withdrawal whose object may still exist.
    let mut store = open_seeded();
    seed_recovery(
        &mut store,
        "t1",
        "tk-1",
        1,
        "abandoned",
        ItemClass::Ticket,
        Some("op-1"),
    );
    seed_promotion_mutation(&mut store, "t1", 2, "cancelled", ItemClass::Ticket, Some("op-2"));

    let warned = abandoned_promotions(&store, &["t1".to_owned()]);

    assert_eq!(
        warned,
        vec![AbandonedPromotion {
            sequence: 1,
            display_id: "tk-1".to_owned(),
        }],
        "the risk from Mutation 1 is still live"
    );
}

#[test]
fn abandoning_a_promotion_withdraws_the_mutations_queued_behind_it() {
    let mut store = open_seeded();
    seed_recovery(
        &mut store,
        "t1",
        "tk-1",
        1,
        "applying",
        ItemClass::Ticket,
        Some("op-1"),
    );
    seed_mutation(&mut store, 2, "t1", "pending", Some("op-1"));

    let report = cancel(&mut store, "t1").unwrap();

    assert_eq!(
        state_of(&store, 2),
        MutationState::Cancelled,
        "collateral was never attempted, so it is cancelled rather than abandoned"
    );
    assert_eq!(
        report
            .withdrawn
            .iter()
            .map(|m| (m.sequence, m.target_cancelled))
            .collect::<Vec<_>>(),
        vec![(2, true)]
    );
}

#[test]
fn an_applied_promotion_is_reported_rather_than_undone() {
    // tk never compensates by deleting a Backend object.
    let mut store = open_seeded();
    seed_recovery(
        &mut store,
        "e1",
        "tk-1",
        1,
        "applied",
        ItemClass::Epic,
        Some("op-1"),
    );
    seed_recovery(
        &mut store,
        "c1",
        "tk-2",
        2,
        "failed",
        ItemClass::Ticket,
        Some("op-1"),
    );

    let report = cancel(&mut store, "c1").unwrap();

    assert_eq!(
        report
            .applied_promotions
            .iter()
            .map(|p| p.display_id.as_str())
            .collect::<Vec<_>>(),
        vec!["tk-1"]
    );
    assert_eq!(state_of(&store, 1), MutationState::Applied);
    assert_eq!(state_of(&store, 2), MutationState::Cancelled);
}

#[test]
fn a_backend_bound_blocked_item_may_not_be_left_waiting_on_a_cancelled_one() {
    let mut store = open_seeded();
    seed_recovery(
        &mut store,
        "t1",
        "tk-1",
        1,
        "failed",
        ItemClass::Ticket,
        Some("op-1"),
    );
    seed_backend_ticket(&mut store, "backend", "gh-9", "9", 2);
    insert_dependency(&mut store, "t1", "backend").unwrap();

    let err = cancel(&mut store, "t1").unwrap_err();

    let CancelPromotionError::UnrepresentableDependencies(edges) = err else {
        panic!("expected a Dependency refusal, got {err:?}");
    };
    assert_eq!(
        edges,
        vec![UnrepresentableDependency {
            blocked_display_id: "gh-9".into(),
            blocking_display_id: "tk-1".into(),
            rejection: DependencyRejection::BackendBlockedLocalBlocking,
        }]
    );
    assert_eq!(state_of(&store, 1), MutationState::Failed);
}

#[test]
fn cancelling_both_endpoints_leaves_the_edge_local() {
    // An operation-wide withdrawal is self-consistent: neither endpoint
    // keeps a Backend identity, so the edge simply stays local.
    let mut store = open_seeded();
    seed_recovery(
        &mut store,
        "t1",
        "tk-1",
        1,
        "failed",
        ItemClass::Ticket,
        Some("op-1"),
    );
    seed_recovery(
        &mut store,
        "t2",
        "tk-2",
        2,
        "pending",
        ItemClass::Ticket,
        Some("op-1"),
    );
    insert_dependency(&mut store, "t1", "t2").unwrap();

    cancel(&mut store, "t1").unwrap();

    assert_eq!(state_of(&store, 1), MutationState::Cancelled);
    assert_eq!(state_of(&store, 2), MutationState::Cancelled);
}

#[test]
fn cancellation_ignores_an_earlier_nonterminal_mutation() {
    let mut store = open_seeded();
    seed_update_mutation(&mut store, "pending");
    seed_recovery(
        &mut store,
        "t1",
        "tk-1",
        4,
        "failed",
        ItemClass::Ticket,
        Some("op-1"),
    );

    cancel(&mut store, "t1").unwrap();

    assert_eq!(state_of(&store, 4), MutationState::Cancelled);
    assert_eq!(
        state_of(&store, 1),
        MutationState::Pending,
        "an unrelated older Mutation is untouched"
    );
}

#[test]
fn an_applied_promotion_still_names_the_operation_it_belongs_to() {
    // The half-applied `--children` case: the Epic the operator typed at
    // promote time landed, its child was rejected, and the Epic is still
    // the natural handle on the operation to withdraw.
    let mut store = open_seeded();
    seed_recovery(
        &mut store,
        "e1",
        "tk-1",
        1,
        "applied",
        ItemClass::Epic,
        Some("op-1"),
    );
    seed_recovery(
        &mut store,
        "c1",
        "tk-2",
        2,
        "failed",
        ItemClass::Ticket,
        Some("op-1"),
    );

    let report = cancel(&mut store, "e1").unwrap();

    assert_eq!(
        report
            .cancelled_promotions
            .iter()
            .map(|p| p.display_id.as_str())
            .collect::<Vec<_>>(),
        vec!["tk-2"]
    );
    assert_eq!(state_of(&store, 2), MutationState::Cancelled);
    assert_eq!(state_of(&store, 1), MutationState::Applied);
}

#[test]
fn an_operation_with_nothing_left_to_withdraw_is_refused() {
    let mut store = open_seeded();
    seed_recovery(
        &mut store,
        "t1",
        "tk-1",
        1,
        "applied",
        ItemClass::Ticket,
        Some("op-1"),
    );

    let err = cancel(&mut store, "t1").unwrap_err();

    assert!(
        matches!(err, CancelPromotionError::NothingToWithdraw(ref op) if op == "op-1"),
        "got {err:?}"
    );
}

#[test]
fn a_re_promoted_item_resolves_to_its_current_operation() {
    let mut store = open_seeded();
    seed_recovery(
        &mut store,
        "t1",
        "tk-1",
        1,
        "cancelled",
        ItemClass::Ticket,
        Some("op-1"),
    );
    insert_fixture_mutation(
        &mut store,
        FixtureMutation {
            sequence: 2,
            mutation_type: "promote_ticket",
            item_id: "t1",
            payload_json: r#"{"title":"T","body":"","backend_kind":"github"}"#,
            promotion_operation_id: Some("op-2"),
            ..FixtureMutation::default()
        },
    )
    .unwrap();

    let report = cancel(&mut store, "t1").unwrap();

    assert_eq!(
        report
            .cancelled_promotions
            .iter()
            .map(|p| p.sequence)
            .collect::<Vec<_>>(),
        vec![2],
        "the withdrawn operation is the live one, not the already-cancelled one"
    );
}

#[test]
fn cancelling_an_item_with_no_nonterminal_promotion_is_refused() {
    let mut store = open_seeded();
    seed_ticket(&mut store, "t1", "tk-1", 1);

    let err = cancel(&mut store, "t1").unwrap_err();

    assert!(
        matches!(err, CancelPromotionError::Recovery(_)),
        "got {err:?}"
    );
}

#[test]
fn a_human_curated_terminal_omission_counts_as_resolved() {
    // The operation is no longer waiting on a Skipped or Cancelled
    // Mutation; a human already decided its outcome.
    for state in ["skipped", "cancelled"] {
        let mut store = open_seeded();
        seed_ticket(&mut store, "t1", "tk-1", 1);
        seed_mutation(&mut store, 1, "t1", state, Some("op-1"));

        assert!(
            unresolved_in_operation(&store, "op-1").is_empty(),
            "a {state} Mutation is a resolved outcome"
        );
    }
}

fn seed_backend_ticket(store: &mut Store, id: &str, display: &str, key: &str, created_seq: i64) {
    insert_fixture_item(
        store,
        FixtureItem {
            id,
            display,
            title: "Ticket",
            origin: "backend",
            backend_kind: Some("github"),
            backend_key: Some(key),
            created_seq,
            ..FixtureItem::default()
        },
    )
    .unwrap();
}

