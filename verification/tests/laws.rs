//! What holds of the store as a whole, on concrete stores.

use rand::rngs::StdRng;
use rand::SeedableRng;
use tk_store::domain::{
    BackendBinding, BackendKind, ItemClass, ItemStatus, Lifecycle, MutationState, MutationType,
    Origin, Priority, SelectionState, TicketKind, WorkState,
};
use tk_store::mutations::{
    append, resolve_backend_binding, transition, withdrawal_candidates, AppendError, AppendRequest, BackendBindingError,
    IllegalTransition, TransitionError, TransitionRequest,
};
use tk_store::payload::{
    addressed_counterpart_id, read_promotion, MutationPayload, Promotion, TitleBody,
};
use tk_store::promotion::{
    apply_receipt, cancel_promotion, commit_operation, commit_plan, read_graph,
    recoverable_promotion, BackendItemIdentity, CancelPromotionError, CommitPlanError,
    MutationDraft, PromotionPlan, ReadGraphError, RecoveryPromotionError,
};
use tk_store::repository::create::{
    create_local_ticket, create_local_ticket_as, generate_internal_id, internal_id, CreateError,
    CreateLocalTicketInput,
};
use tk_store::repository::dependency::{
    add_dependency, remove_dependency, AddDependencyError, DependencyEdge, RemoveDependencyError,
};
use tk_store::repository::detach::{detach, DetachError};
use tk_store::repository::grep::scan;
use tk_store::repository::list::{list_rows, ListOptions, ListView};
use tk_store::repository::next::{build_rationale, next_ready_ticket, NextOptions, NextScope};
use tk_store::repository::plan::{
    clear, edit_membership, read, MembershipEdit, MembershipResult, PlanBlocker, PlanError,
    PlanSection,
};
use tk_store::repository::selection::{accept_ticket, AcceptError};
use tk_store::repository::show::show_item;
use tk_store::repository::status::{close_item, SetStatusError};
use tk_store::repository::update::{update_item, ParentOp, UpdateError, UpdateRequest};
use tk_store::repository::work_state::set_work_state;
use tk_store::repository::{
    item_class_from_text, origin_from_text, priority_from_text, resolve_as_epic_with_display,
    resolve_item_ref, status_from_text, ticket_kind_from_text,
};
use tk_store::rows::{Alias, Dependency, ExternalBlocker, Item, Mutation};
use tk_store::sequences::{next, SequenceError};
use tk_store::sync::{configured_remote_kind, ensure_backend_cohort, parse_kind, BackendCohortError};
use tk_store::tables::{Counter, Fault, Store};
use tk_store::text::hex_text;

/// The time of every change that a test makes, unless it says otherwise.
#[allow(dead_code)]
const NOW: &str = "2026-05-09T00:00:00.000Z";

/// A later time.
#[allow(dead_code)]
const LATER: &str = "2030-03-17T17:46:40.000Z";

/// A fresh store: counters at zero and a Display ID prefix.
fn open_seeded() -> Store {
    let mut store = Store::new();
    store.set_counter(Counter::ItemCreated, Some(0));
    store.set_counter(Counter::Display, Some(0));
    store.set_counter(Counter::Mutation, Some(0));
    store.set_display_prefix(Some("tk".to_owned()));
    store
}

/// An Item to put into the store.
#[derive(Clone, Copy)]
struct FixtureItem<'a> {
    id: &'a str,
    display: &'a str,
    item_class: &'a str,
    ticket_kind: Option<&'a str>,
    priority: Option<&'a str>,
    selection_state: Option<&'a str>,
    title: &'a str,
    body: &'a str,
    status: &'a str,
    closing_reason: Option<&'a str>,
    container_id: Option<&'a str>,
    origin: &'a str,
    backend_kind: Option<&'a str>,
    backend_key: Option<&'a str>,
    created_seq: i64,
    created_at: &'a str,
    updated_at: &'a str,
}

impl<'a> Default for FixtureItem<'a> {
    fn default() -> Self {
        FixtureItem {
            id: "",
            display: "",
            item_class: "ticket",
            ticket_kind: Some("task"),
            priority: Some("P2"),
            selection_state: Some("accepted"),
            title: "",
            body: "",
            status: "open",
            closing_reason: None,
            container_id: None,
            origin: "local",
            backend_kind: None,
            backend_key: None,
            created_seq: 0,
            created_at: NOW,
            updated_at: NOW,
        }
    }
}

fn fixture_row(item: FixtureItem<'_>) -> Item {
    let epic = item.item_class == "epic";
    Item {
        id: item.id.to_owned(),
        display_id: item.display.to_owned(),
        display_created_at: NOW.to_owned(),
        item_class: ItemClass::parse(item.item_class).unwrap(),
        ticket_kind: item.ticket_kind.map(|t| TicketKind::parse(t).unwrap()),
        priority: item.priority.map(|t| Priority::parse(t).unwrap()),
        selection_state: if epic {
            None
        } else {
            item.selection_state.map(|t| SelectionState::parse(t).unwrap())
        },
        title: item.title.to_owned(),
        body: item.body.to_owned(),
        closing_reason: item.closing_reason.map(str::to_owned),
        lifecycle: if item.status == "done" { Lifecycle::Done } else { Lifecycle::Open },
        work_state: if item.status == "active" { WorkState::Active } else { WorkState::Idle },
        container_id: item.container_id.map(str::to_owned),
        origin: Origin::parse(item.origin).unwrap(),
        backend_kind: item.backend_kind.map(str::to_owned),
        backend_key: item.backend_key.map(str::to_owned),
        local_display_id: None,
        created_seq: item.created_seq,
        created_at: item.created_at.to_owned(),
        updated_at: item.updated_at.to_owned(),
    }
}

fn insert_fixture_item(store: &mut Store, item: FixtureItem<'_>) -> Result<(), Fault> {
    store.insert_item(fixture_row(item))
}

#[allow(dead_code)]
fn insert_alias(store: &mut Store, value: &str, item_id: &str) -> Result<(), Fault> {
    store.insert_alias(Alias {
        value: value.to_owned(),
        item_id: item_id.to_owned(),
        created_at: NOW.to_owned(),
    })
}

#[allow(dead_code)]
fn insert_dependency(store: &mut Store, blocking: &str, blocked: &str) -> Result<(), Fault> {
    store.insert_dependency(Dependency {
        blocking_id: blocking.to_owned(),
        blocked_id: blocked.to_owned(),
        created_at: NOW.to_owned(),
    })
}

#[allow(dead_code)]
fn insert_external_blocker(
    store: &mut Store,
    id: &str,
    item_id: &str,
    resolved_at: Option<&str>,
) -> Result<(), Fault> {
    store.insert_external_blocker(ExternalBlocker {
        id: id.to_owned(),
        item_id: item_id.to_owned(),
        reason: "fixture blocker".to_owned(),
        created_at: NOW.to_owned(),
        resolved_at: resolved_at.map(str::to_owned),
    })
}

/// A Mutation to put into the log.
#[derive(Clone, Copy)]
struct FixtureMutation<'a> {
    sequence: i64,
    mutation_type: &'a str,
    item_id: &'a str,
    item_class: &'a str,
    payload_json: &'a str,
    state: &'a str,
    failure_json: Option<&'a str>,
    promotion_operation_id: Option<&'a str>,
}

impl<'a> Default for FixtureMutation<'a> {
    fn default() -> Self {
        FixtureMutation {
            sequence: 1,
            mutation_type: "update_ticket",
            item_id: "",
            item_class: "ticket",
            payload_json: "{}",
            state: "pending",
            failure_json: None,
            promotion_operation_id: None,
        }
    }
}

#[allow(dead_code)]
fn insert_fixture_mutation(store: &mut Store, m: FixtureMutation<'_>) -> Result<(), Fault> {
    store.insert_mutation(Mutation {
        sequence: m.sequence,
        mutation_type: MutationType::parse(m.mutation_type).unwrap(),
        item_id: m.item_id.to_owned(),
        item_class: ItemClass::parse(m.item_class).unwrap(),
        payload_json: m.payload_json.to_owned(),
        state: MutationState::parse(m.state).unwrap(),
        failure_json: m.failure_json.map(str::to_owned),
        created_at: NOW.to_owned(),
        state_changed_at: NOW.to_owned(),
        promotion_operation_id: m.promotion_operation_id.map(str::to_owned),
    })
}

#[allow(dead_code)]
fn the_item<'a>(store: &'a Store, id: &str) -> &'a Item {
    store.item(store.find(id).unwrap())
}

#[allow(dead_code)]
fn item_axes(store: &Store, id: &str) -> (Lifecycle, WorkState) {
    let item = the_item(store, id);
    (item.lifecycle, item.work_state)
}

#[allow(dead_code)]
fn mutation_types(store: &Store) -> Vec<&'static str> {
    (0..store.mutation_count())
        .map(|i| store.mutation(i).mutation_type.text())
        .collect()
}

#[allow(dead_code)]
fn mutation_states(store: &Store) -> Vec<&'static str> {
    (0..store.mutation_count())
        .map(|i| store.mutation(i).state.text())
        .collect()
}

#[allow(dead_code)]
fn payloads(store: &Store) -> Vec<&str> {
    (0..store.mutation_count())
        .map(|i| store.mutation(i).payload_json.as_str())
        .collect()
}

fn seed(store: &mut Store, id: &str, display: &str, seq: i64) {
    insert_fixture_item(
        store,
        FixtureItem { id, display, title: id, created_seq: seq, ..FixtureItem::default() },
    )
    .unwrap();
}

fn seed_epic(store: &mut Store, id: &str, display: &str, seq: i64) {
    insert_fixture_item(
        store,
        FixtureItem {
            id,
            display,
            item_class: "epic",
            ticket_kind: None,
            priority: None,
            title: id,
            created_seq: seq,
            ..FixtureItem::default()
        },
    )
    .unwrap();
}

fn seed_backend(store: &mut Store, id: &str, display: &str, key: &str, seq: i64) {
    insert_fixture_item(
        store,
        FixtureItem {
            id,
            display,
            title: id,
            origin: "backend",
            backend_kind: Some("github"),
            backend_key: Some(key),
            created_seq: seq,
            ..FixtureItem::default()
        },
    )
    .unwrap();
}

fn edge<'a>(blocked_id: &'a str, blocking_id: &'a str) -> DependencyEdge<'a> {
    DependencyEdge { blocked_id, blocking_id }
}

// Identities and payloads.

#[test]
fn an_internal_id_spells_its_bytes() {
    let bytes = [0u8, 1, 15, 16, 31, 127, 128, 160, 171, 205, 239, 250, 254, 255, 9, 10];
    assert_eq!(hex_text(&bytes), "00010f101f7f80a0abcdeffafeff090a");
    assert_eq!(internal_id(&bytes), "00010f101f7f80a0abcdeffafeff090a");
}

#[test]
fn drawn_ids_differ() {
    let mut rng = StdRng::seed_from_u64(7);
    let a = generate_internal_id(&mut rng);
    let b = generate_internal_id(&mut rng);
    assert_ne!(a, b);
    assert_ne!(a, "0".repeat(32));
    assert!(a.chars().all(|c| c.is_ascii_digit() || ('a'..='f').contains(&c)));
}

#[test]
fn payloads_are_json_with_their_text_escaped() {
    let payload = MutationPayload::UpdateTitleBody(TitleBody {
        title: "Say \"hi\"".to_owned(),
        body: "two\nlines".to_owned(),
    });
    assert_eq!(payload.to_json_string(), r#"{"title":"Say \"hi\"","body":"two\nlines"}"#);
}

#[test]
fn a_promotion_payload_reads_back() {
    let mut store = open_seeded();
    seed(&mut store, "t1", "tk-1", 1);
    let payload = MutationPayload::Promotion(Promotion {
        title: "a \"quoted\" title".to_owned(),
        body: "back\\slash".to_owned(),
        backend_kind: "jira".to_owned(),
    })
    .to_json_string();
    insert_fixture_mutation(
        &mut store,
        FixtureMutation {
            mutation_type: "promote_ticket",
            item_id: "t1",
            payload_json: &payload,
            promotion_operation_id: Some("op-1"),
            ..FixtureMutation::default()
        },
    )
    .unwrap();
    assert_eq!(
        resolve_backend_binding(&store, "t1").unwrap(),
        BackendBinding::PendingPromotion { backend_kind: "jira".to_owned() }
    );
    let target = recoverable_promotion(&store, "t1").unwrap();
    assert_eq!(target.promotion.title, "a \"quoted\" title");
    assert_eq!(target.promotion.body, "back\\slash");
}

#[test]
fn a_binding_names_what_is_wrong() {
    let mut store = open_seeded();
    assert!(matches!(
        resolve_backend_binding(&store, "nobody"),
        Err(BackendBindingError::Sqlite(Fault::NoRow))
    ));
    seed(&mut store, "t1", "tk-1", 1);
    insert_fixture_mutation(
        &mut store,
        FixtureMutation {
            mutation_type: "promote_ticket",
            item_id: "t1",
            payload_json: r#"{"title":"T","body":""}"#,
            ..FixtureMutation::default()
        },
    )
    .unwrap();
    assert!(matches!(
        resolve_backend_binding(&store, "t1"),
        Err(BackendBindingError::PayloadJson(_))
    ));
}

#[test]
fn a_backend_item_has_a_whole_identity_and_a_local_one_has_none() {
    let mut store = open_seeded();
    let of = |origin, backend_kind, backend_key| FixtureItem {
        id: "t1",
        display: "gh-1",
        title: "T",
        origin,
        backend_kind,
        backend_key,
        created_seq: 1,
        ..FixtureItem::default()
    };
    for refused in [
        of("backend", None, None),
        of("backend", Some("github"), None),
        of("backend", None, Some("1")),
        of("local", Some("github"), Some("1")),
        of("local", Some("github"), None),
        of("local", None, Some("1")),
    ] {
        assert_eq!(insert_fixture_item(&mut store, refused), Err(Fault::Check));
    }
    let mut retained = fixture_row(of("local", None, None));
    retained.local_display_id = Some("tk-9".to_owned());
    assert_eq!(store.insert_item(retained), Err(Fault::Check));
    assert_eq!(store.item_count(), 0);
    insert_fixture_item(&mut store, of("backend", Some("github"), Some("1"))).unwrap();
}

#[test]
fn a_payload_may_be_an_array_of_its_values() {
    let promotion = read_promotion(r#"["T","","github"]"#).unwrap();
    assert_eq!(
        promotion,
        Promotion { title: "T".to_owned(), body: String::new(), backend_kind: "github".to_owned() }
    );
    for malformed in [r#"["T",""]"#, r#"["T","","github","more"]"#, r#"["T","",1]"#, "[]", "null", "{"] {
        assert!(read_promotion(malformed).is_err());
    }
    let added = MutationType::AddDependency;
    assert_eq!(addressed_counterpart_id(added, r#"["t2"]"#), Ok(Some("t2".to_owned())));
    assert!(addressed_counterpart_id(added, r#"["t2","t3"]"#).is_err());
    assert!(addressed_counterpart_id(added, r#"[7]"#).is_err());
}

#[test]
fn every_spelling_reads_back() {
    for class in [ItemClass::Ticket, ItemClass::Epic] {
        assert_eq!(item_class_from_text(class.text()), class);
    }
    for kind in ["task", "bug"] {
        if let Some(found) = TicketKind::parse(kind) {
            assert_eq!(ticket_kind_from_text(kind), found);
        }
    }
    for priority in ["P0", "P1", "P2", "P3", "P4"] {
        assert_eq!(priority_from_text(priority).text(), priority);
    }
    for status in [ItemStatus::Open, ItemStatus::Active, ItemStatus::Done] {
        assert_eq!(status_from_text(status.text()), status);
    }
    for origin in [Origin::Local, Origin::Backend] {
        assert_eq!(origin_from_text(origin.text()), origin);
    }
    assert_eq!(parse_kind("github"), Some(BackendKind::Github));
    assert_eq!(parse_kind("jira"), Some(BackendKind::Jira));
    assert_eq!(parse_kind("GitHub"), None);
    assert_eq!(Priority::parse("P5"), None);
    assert_eq!(ItemStatus::of(Lifecycle::Done, WorkState::Active), ItemStatus::Done);
    assert_eq!(ItemStatus::of(Lifecycle::Open, WorkState::Active), ItemStatus::Active);
}

// Counters and creation.

#[test]
fn a_counter_stops_at_the_largest_number() {
    let mut store = open_seeded();
    store.set_counter(Counter::Mutation, Some(i64::MAX));
    assert!(matches!(next(&mut store, "mutation_seq"), Err(SequenceError::Sqlite(Fault::Overflow))));
    assert_eq!(store.counter(Counter::Mutation), Some(i64::MAX));
    assert_eq!(next(&mut store, "display_seq").unwrap(), 1);
}

fn input<'a>(title: &'a str, parent_id: Option<&'a str>) -> CreateLocalTicketInput<'a> {
    CreateLocalTicketInput { kind: TicketKind::Task, priority: Priority::P2, parent_id, title, body: "" }
}

#[test]
fn a_create_that_is_refused_changes_nothing() {
    let mut store = open_seeded();
    let mut rng = StdRng::seed_from_u64(1);
    seed(&mut store, "t0", "tk-9", 1);
    let refused = create_local_ticket(&mut store, NOW, &mut rng, input("Child", Some("t0")));
    assert!(matches!(refused, Err(CreateError::Sqlite(Fault::ForeignKey))), "{refused:?}");
    assert_eq!(store.item_count(), 1);
    assert_eq!(store.counter(Counter::Display), Some(0));
    assert_eq!(store.counter(Counter::ItemCreated), Some(0));

    store.set_display_prefix(None);
    let refused = create_local_ticket(&mut store, NOW, &mut rng, input("T", None));
    assert!(matches!(refused, Err(CreateError::DisplayPrefixMissing)), "{refused:?}");

    store.set_display_prefix(Some("tk".to_owned()));
    store.set_counter(Counter::Display, None);
    let refused = create_local_ticket(&mut store, NOW, &mut rng, input("T", None));
    assert!(
        matches!(
            refused,
            Err(CreateError::Sequence(SequenceError::Missing("display_seq")))
        ),
        "{refused:?}"
    );
    assert_eq!(store.item_count(), 1);
}

#[test]
fn an_internal_id_is_taken_once() {
    let mut store = open_seeded();
    create_local_ticket_as(&mut store, NOW, "same", &input("A", None)).unwrap();
    let refused = create_local_ticket_as(&mut store, NOW, "same", &input("B", None));
    assert!(matches!(refused, Err(CreateError::Sqlite(Fault::IdTaken))), "{refused:?}");
    assert_eq!(store.item_count(), 1);
    assert_eq!(the_item(&store, "same").title, "A");
}

#[test]
fn display_ids_and_aliases_resolve_whatever_their_case() {
    let mut store = open_seeded();
    seed_epic(&mut store, "e1", "tk-1", 1);
    insert_alias(&mut store, "Old-Name", "e1").unwrap();
    for arg in ["tk-1", "TK-1", "old-name", "OLD-NAME"] {
        assert_eq!(resolve_item_ref(&store, arg).unwrap().id, "e1");
        assert_eq!(resolve_as_epic_with_display(&store, arg).unwrap().display_id, "tk-1");
    }
    assert_eq!(insert_alias(&mut store, "TK-1", "e1"), Err(Fault::DisplayIdTaken));
    assert_eq!(insert_alias(&mut store, "fresh", "nobody"), Err(Fault::ForeignKey));
}

// Edits.

#[test]
fn the_same_edit_twice_changes_nothing_more() {
    let mut store = open_seeded();
    seed_backend(&mut store, "t1", "gh-1", "1", 1);
    let request = || UpdateRequest {
        id: "t1",
        item_class: ItemClass::Ticket,
        title: Some("New"),
        priority: Some(Priority::P0),
        ..UpdateRequest::default()
    };
    update_item(&mut store, NOW, request()).unwrap();
    assert_eq!(store.mutation_count(), 1);
    update_item(&mut store, LATER, request()).unwrap();
    assert_eq!(store.mutation_count(), 1);
    assert_eq!(the_item(&store, "t1").updated_at, NOW);
}

#[test]
fn an_edit_that_is_refused_changes_nothing() {
    let mut store = open_seeded();
    seed_backend(&mut store, "t1", "gh-1", "1", 1);
    let refused = update_item(
        &mut store,
        LATER,
        UpdateRequest {
            id: "t1",
            item_class: ItemClass::Ticket,
            title: Some("New"),
            parent: ParentOp::To("nobody"),
            ..UpdateRequest::default()
        },
    );
    assert!(matches!(refused, Err(UpdateError::Sqlite(Fault::ForeignKey))), "{refused:?}");
    assert_eq!(the_item(&store, "t1").title, "t1");
    assert_eq!(store.mutation_count(), 0);

    store.set_counter(Counter::Mutation, None);
    let refused = update_item(
        &mut store,
        LATER,
        UpdateRequest { id: "t1", item_class: ItemClass::Ticket, title: Some("New"), ..UpdateRequest::default() },
    );
    assert!(matches!(refused, Err(UpdateError::Mutation(AppendError::Sequence(_)))), "{refused:?}");
    assert_eq!(the_item(&store, "t1").title, "t1");
}

#[test]
fn a_closed_item_stays_closed() {
    let mut store = open_seeded();
    seed(&mut store, "t1", "tk-1", 1);
    close_item(&mut store, NOW, "t1", None).unwrap();
    assert!(set_work_state(&mut store, NOW, "t1", WorkState::Active).is_err());
    assert!(matches!(
        close_item(&mut store, LATER, "t1", Some("again")),
        Err(SetStatusError::AlreadyClosed(ItemClass::Ticket))
    ));
    assert_eq!(item_axes(&store, "t1"), (Lifecycle::Done, WorkState::Idle));
    assert!(matches!(
        accept_ticket(&mut store, NOW, "nobody", None),
        Err(AcceptError::NotFound)
    ));
}

// Dependencies.

#[test]
fn removing_a_dependency_undoes_adding_it() {
    let mut store = open_seeded();
    seed(&mut store, "a", "tk-1", 1);
    seed(&mut store, "b", "tk-2", 2);
    add_dependency(&mut store, NOW, edge("a", "b")).unwrap();
    assert_eq!(show_item(&store, "tk-1").unwrap().blocked_by.len(), 1);
    remove_dependency(&mut store, NOW, edge("a", "b")).unwrap();
    assert_eq!(store.dependency_count(), 0);
    assert!(matches!(
        remove_dependency(&mut store, NOW, edge("a", "nobody")),
        Err(RemoveDependencyError::EndpointMissing)
    ));
}

#[test]
fn dependencies_never_close_a_cycle() {
    let mut store = open_seeded();
    for (i, id) in ["a", "b", "c", "d"].iter().enumerate() {
        seed(&mut store, id, &format!("tk-{i}"), i as i64);
    }
    add_dependency(&mut store, NOW, edge("a", "b")).unwrap();
    add_dependency(&mut store, NOW, edge("b", "c")).unwrap();
    add_dependency(&mut store, NOW, edge("c", "d")).unwrap();
    for blocking in ["a", "b", "c"] {
        assert!(matches!(
            add_dependency(&mut store, NOW, edge("d", blocking)),
            Err(AddDependencyError::Cycle)
        ));
    }
    assert!(matches!(
        add_dependency(&mut store, NOW, edge("a", "a")),
        Err(AddDependencyError::Cycle)
    ));
    assert_eq!(store.dependency_count(), 3);
    assert_eq!(insert_dependency(&mut store, "a", "d"), Err(Fault::Cycle));
    assert_eq!(insert_dependency(&mut store, "b", "a"), Err(Fault::DependencyTaken));
    assert_eq!(insert_dependency(&mut store, "nobody", "a"), Err(Fault::ForeignKey));
}

// Reads.

#[test]
fn ready_and_blocked_share_no_ticket() {
    let mut store = open_seeded();
    seed(&mut store, "a", "tk-1", 1);
    seed(&mut store, "b", "tk-2", 2);
    insert_dependency(&mut store, "a", "b").unwrap();
    let shown = |view: ListView| -> Vec<String> {
        list_rows(&store, ListOptions { view, ..ListOptions::default() })
            .into_iter()
            .map(|row| row.display_id)
            .collect()
    };
    assert_eq!(shown(ListView::Ready), vec!["tk-1"]);
    assert_eq!(shown(ListView::Blocked), vec!["tk-2"]);
    assert_eq!(shown(ListView::Default), vec!["tk-1", "tk-2"]);
}

#[test]
fn a_scan_gives_every_item_in_creation_order() {
    let mut store = open_seeded();
    insert_fixture_item(
        &mut store,
        FixtureItem { id: "late", display: "tk-2", title: "L", body: "text", status: "done", created_seq: 2, ..FixtureItem::default() },
    )
    .unwrap();
    seed(&mut store, "early", "tk-1", 1);
    let first = scan(&store, 0).unwrap();
    let second = scan(&store, 1).unwrap();
    assert_eq!((first.display_id.as_str(), first.status), ("tk-1", ItemStatus::Open));
    assert_eq!((second.body.as_str(), second.status), ("text", ItemStatus::Done));
    assert_eq!(scan(&store, 2), None);
}

#[test]
fn a_rationale_is_owed_only_for_borrowed_urgency() {
    assert_eq!(build_rationale("P1", "P1".to_owned(), Some("tk-9".to_owned())), None);
    assert_eq!(build_rationale("P3", "P1".to_owned(), None), None);
    let rationale = build_rationale("P3", "P1".to_owned(), Some("tk-9".to_owned())).unwrap();
    assert_eq!(rationale.effective_priority, "P1");
    assert_eq!(rationale.blocked_display_id, "tk-9");
}

#[test]
fn urgency_reaches_through_an_epic() {
    let mut store = open_seeded();
    seed_epic(&mut store, "epic", "tk-1", 1);
    insert_fixture_item(
        &mut store,
        FixtureItem {
            id: "child",
            display: "tk-2",
            title: "child",
            priority: Some("P0"),
            container_id: Some("epic"),
            created_seq: 2,
            ..FixtureItem::default()
        },
    )
    .unwrap();
    insert_fixture_item(
        &mut store,
        FixtureItem { id: "helper", display: "tk-3", title: "helper", priority: Some("P4"), created_seq: 3, ..FixtureItem::default() },
    )
    .unwrap();
    insert_external_blocker(&mut store, "x", "child", None).unwrap();
    insert_dependency(&mut store, "helper", "epic").unwrap();
    let ticket = next_ready_ticket(&store, NextOptions::default()).unwrap().unwrap();
    assert_eq!(ticket.display_id, "tk-3");
    let rationale = ticket.rationale.unwrap();
    assert_eq!(rationale.effective_priority, "P0");
    assert_eq!(rationale.blocked_display_id, "tk-2");
}

// The Plan.

#[test]
fn membership_follows_the_batch() {
    let mut store = open_seeded();
    seed(&mut store, "a", "tk-1", 1);
    seed(&mut store, "b", "tk-2", 2);
    seed_epic(&mut store, "e", "tk-3", 3);
    insert_alias(&mut store, "old-1", "a").unwrap();

    let results = edit_membership(
        &mut store,
        &["old-1".to_owned(), "TK-1".to_owned(), "tk-2".to_owned()],
        MembershipEdit::Add,
    )
    .unwrap();
    assert_eq!(
        results,
        vec![
            MembershipResult { display_id: "tk-1".to_owned(), changed: true },
            MembershipResult { display_id: "tk-2".to_owned(), changed: true },
        ]
    );
    let again = edit_membership(&mut store, &["tk-1".to_owned()], MembershipEdit::Add).unwrap();
    assert!(!again[0].changed);

    let refused = edit_membership(&mut store, &["tk-1".to_owned(), "tk-3".to_owned()], MembershipEdit::Remove);
    assert!(matches!(refused, Err(PlanError::NotATicket(id)) if id == "tk-3"));
    let refused = edit_membership(&mut store, &["tk-1".to_owned(), "nope".to_owned()], MembershipEdit::Remove);
    assert!(matches!(refused, Err(PlanError::NotFound(id)) if id == "nope"));
    assert_eq!(store.plan_count(), 2);

    edit_membership(&mut store, &["tk-1".to_owned()], MembershipEdit::Remove).unwrap();
    assert_eq!(store.plan_count(), 1);
    store.insert_plan_member("a").unwrap();
    assert!(store.in_plan("a"));
    assert!(store.insert_plan_member("e").is_err());
    edit_membership(&mut store, &["tk-1".to_owned()], MembershipEdit::Remove).unwrap();
    assert_eq!(clear(&mut store), 1);
    assert_eq!(store.plan_count(), 0);
    assert_eq!(store.mutation_count(), 0);
}

#[test]
fn the_plan_shows_its_members_in_sections() {
    let mut store = open_seeded();
    seed(&mut store, "ready", "tk-1", 1);
    insert_fixture_item(
        &mut store,
        FixtureItem { id: "active", display: "tk-2", title: "active", status: "active", created_seq: 2, ..FixtureItem::default() },
    )
    .unwrap();
    seed(&mut store, "waiting", "tk-3", 3);
    insert_fixture_item(
        &mut store,
        FixtureItem { id: "done", display: "tk-4", title: "done", status: "done", created_seq: 4, ..FixtureItem::default() },
    )
    .unwrap();
    seed(&mut store, "outside", "tk-5", 5);
    insert_dependency(&mut store, "active", "waiting").unwrap();
    insert_dependency(&mut store, "outside", "waiting").unwrap();
    insert_dependency(&mut store, "done", "waiting").unwrap();
    insert_external_blocker(&mut store, "x", "waiting", None).unwrap();
    let ids: Vec<String> = ["tk-4", "tk-3", "tk-2", "tk-1"].iter().map(|s| s.to_string()).collect();
    edit_membership(&mut store, &ids, MembershipEdit::Add).unwrap();

    let members = read(&store);
    let sections: Vec<(&str, PlanSection)> =
        members.iter().map(|m| (m.display_id.as_str(), m.section())).collect();
    assert_eq!(
        sections,
        vec![
            ("tk-1", PlanSection::Ready),
            ("tk-2", PlanSection::InProgress),
            ("tk-3", PlanSection::Waiting),
            ("tk-4", PlanSection::Done),
        ]
    );
    assert_eq!(
        members[2].blockers,
        vec![
            PlanBlocker::Dependency { display_id: "tk-2".to_owned(), outside_plan: false },
            PlanBlocker::Dependency { display_id: "tk-5".to_owned(), outside_plan: true },
            PlanBlocker::External { reason: "fixture blocker".to_owned() },
        ]
    );
}

#[test]
fn plan_priority_crosses_an_epic_only_to_included_children() {
    let mut store = open_seeded();
    for mut item in [
        FixtureItem {
            id: "epic",
            display: "tk-1",
            item_class: "epic",
            priority: None,
            ticket_kind: None,
            created_seq: 1,
            ..FixtureItem::default()
        },
        FixtureItem {
            id: "helper",
            display: "tk-2",
            priority: Some("P3"),
            created_seq: 2,
            ..FixtureItem::default()
        },
        FixtureItem {
            id: "other",
            display: "tk-3",
            priority: Some("P2"),
            created_seq: 3,
            ..FixtureItem::default()
        },
        FixtureItem {
            id: "inside",
            display: "tk-4",
            priority: Some("P1"),
            container_id: Some("epic"),
            created_seq: 4,
            ..FixtureItem::default()
        },
        FixtureItem {
            id: "outside",
            display: "tk-5",
            priority: Some("P0"),
            container_id: Some("epic"),
            created_seq: 5,
            ..FixtureItem::default()
        },
    ] {
        item.title = item.id;
        insert_fixture_item(&mut store, item).unwrap();
    }
    insert_dependency(&mut store, "helper", "epic").unwrap();
    insert_external_blocker(&mut store, "external", "inside", None).unwrap();
    edit_membership(
        &mut store,
        &["tk-2".into(), "tk-3".into(), "tk-4".into()],
        MembershipEdit::Add,
    )
    .unwrap();
    let selected = next_ready_ticket(&store, NextOptions { scope: NextScope::Plan(None) })
        .unwrap()
        .unwrap();
    assert_eq!(selected.display_id, "tk-2");
    assert_eq!(selected.rationale.unwrap().blocked_display_id, "tk-4");
    edit_membership(&mut store, &["tk-4".into()], MembershipEdit::Remove).unwrap();
    let selected = next_ready_ticket(&store, NextOptions { scope: NextScope::Plan(None) })
        .unwrap()
        .unwrap();
    assert_eq!(selected.display_id, "tk-3");
}

#[test]
fn a_plan_within_an_epic_selects_its_children() {
    let mut store = open_seeded();
    seed_epic(&mut store, "epic", "tk-1", 1);
    seed(&mut store, "loose", "tk-2", 2);
    insert_fixture_item(
        &mut store,
        FixtureItem {
            id: "child",
            display: "tk-3",
            title: "child",
            priority: Some("P4"),
            container_id: Some("epic"),
            created_seq: 3,
            ..FixtureItem::default()
        },
    )
    .unwrap();
    let within = NextOptions { scope: NextScope::Plan(Some("epic")) };
    assert_eq!(next_ready_ticket(&store, within).unwrap(), None);
    edit_membership(&mut store, &["tk-2".into(), "tk-3".into()], MembershipEdit::Add).unwrap();
    assert_eq!(next_ready_ticket(&store, within).unwrap().unwrap().display_id, "tk-3");
}

#[test]
fn a_member_stays_one_through_promotion() {
    let mut store = open_seeded();
    seed(&mut store, "stable", "tk-1", 1);
    edit_membership(&mut store, &["tk-1".to_owned()], MembershipEdit::Add).unwrap();
    let identity = BackendItemIdentity {
        backend_key: "https://github.com/o/r/issues/42".to_owned(),
        display_id: "gh-42".to_owned(),
    };
    apply_receipt(&mut store, "stable", "github", &identity, NOW).unwrap();
    let members = read(&store);
    assert_eq!(members.len(), 1);
    assert_eq!(members[0].display_id, "gh-42");
}

// Detachment.

#[test]
fn detaching_gives_a_ticket_a_local_display_id() {
    let mut store = open_seeded();
    seed_backend(&mut store, "t1", "gh-7", "https://github.com/o/r/issues/7", 1);
    let report = detach(&mut store, "GH-7", LATER).unwrap();
    assert_eq!(report.backend_display_id, "gh-7");
    assert_eq!(report.local_display_id, "tk-1");
    assert_eq!(report.backend_key, "https://github.com/o/r/issues/7");
    let row = the_item(&store, "t1");
    assert_eq!((row.origin, row.display_id.as_str()), (Origin::Local, "tk-1"));
    assert_eq!((row.backend_kind.as_deref(), row.backend_key.as_deref()), (None, None));
    assert_eq!(row.updated_at, LATER);
    assert_eq!(store.former_identity_count(), 1);
    assert_eq!(store.former_identity(0).backend_display_value, "gh-7");
    assert_eq!(store.former_identity(0).detached_seq, 1);
    assert_eq!(resolve_backend_binding(&store, "t1").unwrap(), BackendBinding::Local);
}

fn alias_values(store: &Store) -> Vec<String> {
    (0..store.alias_count()).map(|i| store.alias(i).value.clone()).collect()
}

#[test]
fn membership_follows_identity_through_promotion_detach_and_readopt() {
    let mut store = open_seeded();
    store.set_remote_kind(Some(BackendKind::Github));
    insert_fixture_item(
        &mut store,
        FixtureItem {
            id: "stable",
            display: "tk-1",
            title: "Local work",
            created_seq: 1,
            ..FixtureItem::default()
        },
    )
    .unwrap();
    insert_alias(&mut store, "old-1", "stable").unwrap();
    let results =
        edit_membership(&mut store, &["old-1".into(), "TK-1".into()], MembershipEdit::Add).unwrap();
    assert_eq!(results.len(), 1);
    assert_eq!(results[0].display_id, "tk-1");
    let identity = BackendItemIdentity {
        backend_key: "https://github.com/o/r/issues/42".into(),
        display_id: "gh-42".into(),
    };
    apply_receipt(&mut store, "stable", "github", &identity, "2026-05-10T00:00:00.000Z").unwrap();
    assert_eq!(read(&store)[0].display_id, "gh-42");
    assert_eq!(alias_values(&store), vec!["old-1", "tk-1"]);
    let drawn = store.counter(Counter::Display);
    let report = detach(&mut store, "gh-42", "2026-05-11T00:00:00.000Z").unwrap();
    assert_eq!(report.local_display_id, "tk-1");
    assert_eq!(read(&store)[0].display_id, "tk-1");
    assert_eq!(alias_values(&store), vec!["old-1"]);
    assert_eq!(store.counter(Counter::Display), drawn);
    assert_eq!(the_item(&store, "stable").local_display_id, None);

    // Adopted anew: the Backend's identity comes back onto the same Item.
    let mut row = the_item(&store, "stable").copy();
    row.origin = Origin::Backend;
    row.backend_kind = Some("github".into());
    row.backend_key = Some(identity.backend_key);
    row.local_display_id = Some(row.display_id);
    row.display_id = identity.display_id;
    row.title = "Updated remotely".into();
    row.lifecycle = Lifecycle::Done;
    store.replace_item(row).unwrap();
    insert_alias(&mut store, "tk-1", "stable").unwrap();
    let members = read(&store);
    assert_eq!(members.len(), 1);
    assert_eq!(members[0].display_id, "gh-42");
    assert_eq!(members[0].status, ItemStatus::Done);
    assert_eq!(members[0].title, "Updated remotely");
    assert_eq!(store.mutation_count(), 0);
}

#[test]
fn a_detached_ticket_takes_the_display_id_it_had() {
    let mut store = open_seeded();
    // An Alias, and nothing on record: it cannot be told.
    seed_backend(&mut store, "one", "gh-3", "3", 3);
    insert_alias(&mut store, "tk-3", "one").unwrap();
    assert!(matches!(detach(&mut store, "gh-3", NOW), Err(DetachError::UnsupportedHistory)));
    insert_alias(&mut store, "old-3", "one").unwrap();
    assert!(matches!(detach(&mut store, "tk-3", NOW), Err(DetachError::UnsupportedHistory)));
    // None: a new one is drawn.
    seed_backend(&mut store, "none", "gh-4", "4", 4);
    assert_eq!(detach(&mut store, "gh-4", NOW).unwrap().local_display_id, "tk-1");
    assert_eq!(alias_values(&store), vec!["tk-3", "old-3"]);
    // On record, though an Alias came after it.
    seed(&mut store, "late", "tk-5", 5);
    let identity = BackendItemIdentity { backend_key: "5".into(), display_id: "gh-5".into() };
    apply_receipt(&mut store, "late", "github", &identity, NOW).unwrap();
    insert_alias(&mut store, "later", "late").unwrap();
    assert_eq!(detach(&mut store, "gh-5", LATER).unwrap().local_display_id, "tk-5");
    assert_eq!(alias_values(&store), vec!["tk-3", "old-3", "later"]);
    // On record, but its Alias is gone and another Item has the name by now.
    let mut row = fixture_row(FixtureItem {
        id: "lost",
        display: "gh-6",
        title: "Lost",
        origin: "backend",
        backend_kind: Some("github"),
        backend_key: Some("6"),
        created_seq: 6,
        ..FixtureItem::default()
    });
    row.local_display_id = Some("TK-5".into());
    store.insert_item(row).unwrap();
    assert!(matches!(
        detach(&mut store, "gh-6", NOW),
        Err(DetachError::Storage(Fault::DisplayIdTaken))
    ));
}

#[test]
fn a_detachment_is_refused_with_its_reason() {
    let mut store = open_seeded();
    assert!(matches!(detach(&mut store, "nope", NOW), Err(DetachError::NotFound)));
    seed(&mut store, "local", "tk-8", 1);
    assert!(matches!(detach(&mut store, "tk-8", NOW), Err(DetachError::Local)));

    insert_fixture_mutation(
        &mut store,
        FixtureMutation {
            mutation_type: "promote_ticket",
            item_id: "local",
            payload_json: r#"{"title":"T","body":"","backend_kind":"github"}"#,
            ..FixtureMutation::default()
        },
    )
    .unwrap();
    assert!(matches!(detach(&mut store, "tk-8", NOW), Err(DetachError::PendingPromotion)));

    insert_fixture_item(
        &mut store,
        FixtureItem {
            id: "epic",
            display: "gh-2",
            item_class: "epic",
            ticket_kind: None,
            priority: None,
            title: "Epic",
            origin: "backend",
            backend_kind: Some("github"),
            backend_key: Some("2"),
            created_seq: 2,
            ..FixtureItem::default()
        },
    )
    .unwrap();
    assert!(matches!(detach(&mut store, "gh-2", NOW), Err(DetachError::UnsupportedHistory)));

    seed_backend(&mut store, "busy", "gh-3", "3", 3);
    insert_fixture_mutation(
        &mut store,
        FixtureMutation { sequence: 2, item_id: "busy", ..FixtureMutation::default() },
    )
    .unwrap();
    assert!(matches!(detach(&mut store, "gh-3", NOW), Err(DetachError::UnresolvedMutations)));

    // Only a member of an object names an Item; an array does not.
    seed_backend(&mut store, "named", "gh-9", "9", 9);
    for (sequence, payload_json) in [(3, r#"["named"]"#), (4, r#"{"blocking_id":"named"}"#)] {
        insert_fixture_mutation(
            &mut store,
            FixtureMutation {
                sequence,
                mutation_type: "add_dependency",
                item_id: "local",
                payload_json,
                ..FixtureMutation::default()
            },
        )
        .unwrap();
        let mut trial = store.copy();
        let detached = detach(&mut trial, "gh-9", NOW);
        match sequence {
            3 => assert!(detached.is_ok()),
            _ => assert!(matches!(detached, Err(DetachError::UnresolvedMutations))),
        }
    }

    seed_backend(&mut store, "blocker", "gh-4", "4", 4);
    seed_backend(&mut store, "blocked", "gh-5", "5", 5);
    insert_dependency(&mut store, "blocker", "blocked").unwrap();
    assert!(matches!(
        detach(&mut store, "gh-4", NOW),
        Err(DetachError::BackendBlockedByDetached { display_id, item_class: ItemClass::Ticket }) if display_id == "gh-5"
    ));
    let before = store.former_identity_count();
    store.set_display_prefix(None);
    seed_backend(&mut store, "free", "gh-6", "6", 6);
    assert!(matches!(detach(&mut store, "gh-6", NOW), Err(DetachError::DisplayPrefixMissing)));
    store.set_counter(Counter::Display, None);
    assert!(matches!(detach(&mut store, "gh-6", NOW), Err(DetachError::Sequence(_))));
    assert_eq!(store.former_identity_count(), before);
}

// Promotion.

#[test]
fn a_cohort_holds_one_backend() {
    let mut store = open_seeded();
    assert_eq!(configured_remote_kind(&store), None);
    seed_backend(&mut store, "t1", "gh-1", "1", 1);
    assert_eq!(ensure_backend_cohort(&store, BackendKind::Github), Ok(()));
    assert_eq!(
        ensure_backend_cohort(&store, BackendKind::Jira),
        Err(BackendCohortError::BackendKindMismatch {
            expected: BackendKind::Jira,
            retained: BackendKind::Github,
        })
    );
}

fn promotion_of(id: &str) -> MutationDraft {
    MutationDraft {
        mutation_type: MutationType::PromoteTicket,
        item_id: id.to_owned(),
        item_class: ItemClass::Ticket,
        payload: MutationPayload::Promotion(Promotion {
            title: id.to_owned(),
            body: String::new(),
            backend_kind: "github".to_owned(),
        }),
    }
}

#[test]
fn a_withdrawn_operation_leaves_its_items_local() {
    let mut store = open_seeded();
    store.set_remote_kind(Some(BackendKind::Github));
    seed(&mut store, "a", "tk-1", 1);
    seed(&mut store, "b", "tk-2", 2);
    let plan = PromotionPlan { mutations: vec![promotion_of("a"), promotion_of("b")] };
    commit_operation(&mut store, &plan, BackendKind::Github, "op", NOW).unwrap();
    assert!(resolve_backend_binding(&store, "a").unwrap() != BackendBinding::Local);
    store.set_remote_kind(None);
    assert!(resolve_backend_binding(&store, "a").unwrap() != BackendBinding::Local);
    let report = cancel_promotion(&mut store, "a", LATER).unwrap();
    assert_eq!(report.cancelled_promotions.len(), 2);
    for id in ["a", "b"] {
        assert_eq!(resolve_backend_binding(&store, id).unwrap(), BackendBinding::Local);
    }
    assert_eq!(mutation_states(&store), vec!["cancelled", "cancelled"]);
    assert!(matches!(
        cancel_promotion(&mut store, "a", LATER),
        Err(CancelPromotionError::NothingToWithdraw(op)) if op == "op"
    ));
}

#[test]
fn two_commits_draw_two_operations() {
    let mut store = open_seeded();
    store.set_remote_kind(Some(BackendKind::Github));
    let mut rng = StdRng::seed_from_u64(3);
    seed(&mut store, "a", "tk-1", 1);
    seed(&mut store, "b", "tk-2", 2);
    let one = PromotionPlan { mutations: vec![promotion_of("a")] };
    let two = PromotionPlan { mutations: vec![promotion_of("b")] };
    let first = commit_plan(&mut store, &one, BackendKind::Github, &mut rng, NOW).unwrap().unwrap();
    let second = commit_plan(&mut store, &two, BackendKind::Github, &mut rng, NOW).unwrap().unwrap();
    assert_ne!(first, second);
    assert_eq!(store.mutation(0).promotion_operation_id.as_deref(), Some(first.as_str()));
    assert_eq!(store.mutation(1).promotion_operation_id.as_deref(), Some(second.as_str()));
    store.set_remote_kind(Some(BackendKind::Jira));
    assert!(matches!(
        commit_plan(&mut store, &one, BackendKind::Github, &mut rng, NOW),
        Err(CommitPlanError::RemoteChanged { expected: BackendKind::Github, actual: Some(BackendKind::Jira) })
    ));
}

#[test]
fn a_graph_needs_its_target() {
    let store = open_seeded();
    assert!(matches!(read_graph(&store, "nobody", false), Err(ReadGraphError::Storage(Fault::NoRow))));
}

#[test]
fn recovery_names_what_is_wrong() {
    let mut store = open_seeded();
    seed(&mut store, "t1", "tk-1", 1);
    assert!(matches!(
        recoverable_promotion(&store, "t1"),
        Err(RecoveryPromotionError::NoRecoverablePromotion(id)) if id == "t1"
    ));
    insert_fixture_mutation(
        &mut store,
        FixtureMutation {
            mutation_type: "promote_ticket",
            item_id: "t1",
            payload_json: "not json",
            promotion_operation_id: Some("op"),
            ..FixtureMutation::default()
        },
    )
    .unwrap();
    assert!(matches!(
        recoverable_promotion(&store, "t1"),
        Err(RecoveryPromotionError::MalformedPayload { sequence: 1 })
    ));
}

// The log.

#[test]
fn an_append_keeps_what_is_in_the_log() {
    let mut store = open_seeded();
    seed_backend(&mut store, "t1", "gh-1", "1", 1);
    let payload = MutationPayload::UpdateTitleBody(TitleBody { title: "A".to_owned(), body: String::new() });
    let request = || AppendRequest {
        mutation_type: MutationType::UpdateTicket,
        item_id: "t1",
        item_class: ItemClass::Ticket,
        payload: &payload,
        promotion_operation_id: None,
        now_iso: NOW,
    };
    append(&mut store, request()).unwrap();
    transition(
        &mut store,
        TransitionRequest {
            sequence: 1,
            from: MutationState::Pending,
            to: MutationState::Applied,
            failure: None,
            now: LATER,
        },
    )
    .unwrap();
    append(&mut store, request()).unwrap();
    assert_eq!(mutation_states(&store), vec!["applied", "pending"]);
    let missing = append(&mut store, AppendRequest { item_id: "nobody", ..request() });
    assert!(matches!(missing, Err(AppendError::Sqlite(Fault::ForeignKey))));
    assert_eq!(store.counter(Counter::Mutation), Some(2));
}

#[test]
fn a_withdrawal_may_take_what_waits_and_creates_nothing() {
    let mut store = open_seeded();
    seed_backend(&mut store, "t1", "gh-1", "1", 1);
    seed(&mut store, "t2", "tk-2", 2);
    let rows = [
        (1, "add_dependency", "t1", r#"{"blocking_id":"t2"}"#, "pending", None),
        (2, "promote_ticket", "t2", "{}", "pending", None),
        (3, "update_ticket", "t1", "{}", "failed", Some(r#"{"detail":"no"}"#)),
        (4, "add_ticket_to_epic", "t1", "{}", "pending", None),
        (5, "update_ticket", "t1", "{}", "applied", None),
    ];
    for (sequence, mutation_type, item_id, payload_json, state, failure_json) in rows {
        insert_fixture_mutation(
            &mut store,
            FixtureMutation {
                sequence,
                mutation_type,
                item_id,
                payload_json,
                state,
                failure_json,
                ..FixtureMutation::default()
            },
        )
        .unwrap();
    }
    let found = withdrawal_candidates(&store);
    let sequences: Vec<i64> = found.iter().map(|candidate| candidate.sequence).collect();
    assert_eq!(sequences, vec![1, 3, 4]);
    assert_eq!(found[0].addressed_counterpart_id(), Ok(Some("t2".to_owned())));
    assert_eq!(found[1].addressed_counterpart_id(), Ok(None));
    assert!(found[2].addressed_counterpart_id().is_err());
}

#[test]
fn a_transition_of_an_unknown_mutation_is_refused() {
    let mut store = open_seeded();
    let refused = transition(
        &mut store,
        TransitionRequest {
            sequence: 5,
            from: MutationState::Pending,
            to: MutationState::Applied,
            failure: None,
            now: NOW,
        },
    );
    assert!(matches!(
        refused,
        Err(TransitionError::Illegal(IllegalTransition::Edge { sequence: 5, .. }))
    ));
}

#[test]
fn a_sequence_is_used_once() {
    let mut store = open_seeded();
    seed(&mut store, "t1", "tk-1", 1);
    let one = FixtureMutation { item_id: "t1", ..FixtureMutation::default() };
    insert_fixture_mutation(&mut store, one).unwrap();
    assert_eq!(insert_fixture_mutation(&mut store, one), Err(Fault::SequenceTaken));
}
