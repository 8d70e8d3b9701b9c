//! The Mutation Log: counters, appends, bindings and state changes.

use tk_store::domain::{
    BackendBinding, BackendKind, ItemClass, ItemStatus, Lifecycle, MutationState, MutationType,
    Origin, Priority, SelectionState, TicketKind, WorkState,
};
use tk_store::mutations::{
    append, mark_applied, resolve_backend_binding, transition, AppendRequest, BackendBindingError,
    IllegalTransition, TransitionError, TransitionRequest,
};
use tk_store::payload::{
    DependencyRef, EpicRef, MutationPayload, Promotion, StatusChange, TitleBody,
};
use tk_store::rows::{Alias, Dependency, ExternalBlocker, Item, Mutation, SyncCursor};
use tk_store::sequences::{next, SequenceError};
use tk_store::tables::{Counter, Fault, Store};

/// The time of every change that a test makes, unless it says otherwise.
#[allow(dead_code)]
const NOW: &str = "2026-05-09T00:00:00.000Z";

/// A later time.
#[allow(dead_code)]
const LATER: &str = "2026-05-10T00:00:00.000Z";

/// A fresh store: counters at zero and a Display ID prefix.
fn open_seeded() -> Store {
    let mut store = Store::new();
    store.set_counter(Counter::ItemCreated, Some(0));
    store.set_counter(Counter::Display, Some(0));
    store.set_counter(Counter::Mutation, Some(0));
    store.set_display_prefix(Some("tk".to_owned()));
    store
}

/// An Item to put into the store.
#[derive(Clone, Copy)]
struct FixtureItem<'a> {
    id: &'a str,
    display: &'a str,
    item_class: &'a str,
    ticket_kind: Option<&'a str>,
    priority: Option<&'a str>,
    selection_state: Option<&'a str>,
    title: &'a str,
    body: &'a str,
    status: &'a str,
    closing_reason: Option<&'a str>,
    container_id: Option<&'a str>,
    origin: &'a str,
    backend_kind: Option<&'a str>,
    backend_key: Option<&'a str>,
    created_seq: i64,
    created_at: &'a str,
    updated_at: &'a str,
}

impl<'a> Default for FixtureItem<'a> {
    fn default() -> Self {
        FixtureItem {
            id: "",
            display: "",
            item_class: "ticket",
            ticket_kind: Some("task"),
            priority: Some("P2"),
            selection_state: Some("accepted"),
            title: "",
            body: "",
            status: "open",
            closing_reason: None,
            container_id: None,
            origin: "local",
            backend_kind: None,
            backend_key: None,
            created_seq: 0,
            created_at: NOW,
            updated_at: NOW,
        }
    }
}

fn fixture_row(item: FixtureItem<'_>) -> Item {
    let epic = item.item_class == "epic";
    Item {
        id: item.id.to_owned(),
        display_id: item.display.to_owned(),
        display_created_at: NOW.to_owned(),
        item_class: ItemClass::parse(item.item_class).unwrap(),
        ticket_kind: item.ticket_kind.map(|t| TicketKind::parse(t).unwrap()),
        priority: item.priority.map(|t| Priority::parse(t).unwrap()),
        selection_state: if epic {
            None
        } else {
            item.selection_state.map(|t| SelectionState::parse(t).unwrap())
        },
        title: item.title.to_owned(),
        body: item.body.to_owned(),
        closing_reason: item.closing_reason.map(str::to_owned),
        lifecycle: if item.status == "done" { Lifecycle::Done } else { Lifecycle::Open },
        work_state: if item.status == "active" { WorkState::Active } else { WorkState::Idle },
        container_id: item.container_id.map(str::to_owned),
        origin: Origin::parse(item.origin).unwrap(),
        backend_kind: item.backend_kind.map(str::to_owned),
        backend_key: item.backend_key.map(str::to_owned),
        local_display_id: None,
        created_seq: item.created_seq,
        created_at: item.created_at.to_owned(),
        updated_at: item.updated_at.to_owned(),
    }
}

fn insert_fixture_item(store: &mut Store, item: FixtureItem<'_>) -> Result<(), Fault> {
    store.insert_item(fixture_row(item))
}

#[allow(dead_code)]
fn insert_alias(store: &mut Store, value: &str, item_id: &str) -> Result<(), Fault> {
    store.insert_alias(Alias {
        value: value.to_owned(),
        item_id: item_id.to_owned(),
        created_at: NOW.to_owned(),
    })
}

#[allow(dead_code)]
fn insert_dependency(store: &mut Store, blocking: &str, blocked: &str) -> Result<(), Fault> {
    store.insert_dependency(Dependency {
        blocking_id: blocking.to_owned(),
        blocked_id: blocked.to_owned(),
        created_at: NOW.to_owned(),
    })
}

#[allow(dead_code)]
fn insert_external_blocker(
    store: &mut Store,
    id: &str,
    item_id: &str,
    resolved_at: Option<&str>,
) -> Result<(), Fault> {
    store.insert_external_blocker(ExternalBlocker {
        id: id.to_owned(),
        item_id: item_id.to_owned(),
        reason: "fixture blocker".to_owned(),
        created_at: NOW.to_owned(),
        resolved_at: resolved_at.map(str::to_owned),
    })
}

/// A Mutation to put into the log.
#[derive(Clone, Copy)]
struct FixtureMutation<'a> {
    sequence: i64,
    mutation_type: &'a str,
    item_id: &'a str,
    item_class: &'a str,
    payload_json: &'a str,
    state: &'a str,
    failure_json: Option<&'a str>,
    promotion_operation_id: Option<&'a str>,
}

impl<'a> Default for FixtureMutation<'a> {
    fn default() -> Self {
        FixtureMutation {
            sequence: 1,
            mutation_type: "update_ticket",
            item_id: "",
            item_class: "ticket",
            payload_json: "{}",
            state: "pending",
            failure_json: None,
            promotion_operation_id: None,
        }
    }
}

#[allow(dead_code)]
fn insert_fixture_mutation(store: &mut Store, m: FixtureMutation<'_>) -> Result<(), Fault> {
    store.insert_mutation(Mutation {
        sequence: m.sequence,
        mutation_type: MutationType::parse(m.mutation_type).unwrap(),
        item_id: m.item_id.to_owned(),
        item_class: ItemClass::parse(m.item_class).unwrap(),
        payload_json: m.payload_json.to_owned(),
        state: MutationState::parse(m.state).unwrap(),
        failure_json: m.failure_json.map(str::to_owned),
        created_at: NOW.to_owned(),
        state_changed_at: NOW.to_owned(),
        promotion_operation_id: m.promotion_operation_id.map(str::to_owned),
    })
}

#[allow(dead_code)]
fn the_item<'a>(store: &'a Store, id: &str) -> &'a Item {
    store.item(store.find(id).unwrap())
}

#[allow(dead_code)]
fn item_axes(store: &Store, id: &str) -> (Lifecycle, WorkState) {
    let item = the_item(store, id);
    (item.lifecycle, item.work_state)
}

#[allow(dead_code)]
fn mutation_types(store: &Store) -> Vec<&'static str> {
    (0..store.mutation_count())
        .map(|i| store.mutation(i).mutation_type.text())
        .collect()
}

#[allow(dead_code)]
fn mutation_states(store: &Store) -> Vec<&'static str> {
    (0..store.mutation_count())
        .map(|i| store.mutation(i).state.text())
        .collect()
}

#[allow(dead_code)]
fn payloads(store: &Store) -> Vec<&str> {
    (0..store.mutation_count())
        .map(|i| store.mutation(i).payload_json.as_str())
        .collect()
}

#[test]
fn first_allocation_returns_one() {
    let mut store = open_seeded();
    assert_eq!(next(&mut store, "item_created_seq").unwrap(), 1);
}

#[test]
fn allocations_increment_monotonically_within_a_transaction() {
    let mut store = open_seeded();
    let a = next(&mut store, "display_seq").unwrap();
    let b = next(&mut store, "display_seq").unwrap();
    let c = next(&mut store, "display_seq").unwrap();
    assert_eq!((a, b, c), (1, 2, 3));
}

#[test]
fn counters_are_independent() {
    let mut store = open_seeded();
    assert_eq!(next(&mut store, "item_created_seq").unwrap(), 1);
    assert_eq!(next(&mut store, "display_seq").unwrap(), 1);
    assert_eq!(next(&mut store, "mutation_seq").unwrap(), 1);
}

#[test]
fn missing_counter_row_reports_corruption() {
    let mut store = open_seeded();
    store.set_counter(Counter::Mutation, None);
    let err = next(&mut store, "mutation_seq").unwrap_err();
    assert!(matches!(err, SequenceError::Missing("mutation_seq")));
}

fn log_seed_backend_ticket(store: &mut Store, id: &str, display: &str, created_seq: i64) {
    insert_fixture_item(
        store,
        FixtureItem {
            id,
            display,
            title: "Ticket",
            origin: "backend",
            backend_kind: Some("github"),
            backend_key: Some("1"),
            created_seq,
            ..FixtureItem::default()
        },
    )
    .unwrap();
}

#[test]
fn append_writes_pending_row_with_serialized_title_body() {
    let mut store = open_seeded();
    log_seed_backend_ticket(&mut store, "t1", "tk-1", 1);

    append(
        &mut store,
        AppendRequest {
            mutation_type: MutationType::UpdateTicket,
            item_id: "t1",
            item_class: ItemClass::Ticket,
            payload: &MutationPayload::UpdateTitleBody(TitleBody {
                title: "New title".into(),
                body: "New body".into(),
            }),
            promotion_operation_id: None,
            now_iso: "2026-05-09T00:00:00.000Z",
        },
    )
    .unwrap();

    let row = store.mutation(store.find_mutation(1).unwrap());
    let (mtype, item_id, item_class, payload, state, failure, promotion_operation_id) = (
        row.mutation_type.text(),
        row.item_id.as_str(),
        row.item_class.text(),
        row.payload_json.as_str(),
        row.state.text(),
        row.failure_json.clone(),
        row.promotion_operation_id.clone(),
    );
    assert_eq!(mtype, "update_ticket");
    assert_eq!(item_id, "t1");
    assert_eq!(item_class, "ticket");
    assert_eq!(payload, r#"{"title":"New title","body":"New body"}"#);
    assert_eq!(state, "pending");
    assert_eq!(failure, None);
    assert_eq!(promotion_operation_id, None);
}

#[test]
fn append_writes_the_supplied_promotion_operation_id() {
    let mut store = open_seeded();
    log_seed_backend_ticket(&mut store, "t1", "tk-1", 1);

    append(
        &mut store,
        AppendRequest {
            mutation_type: MutationType::UpdateTicket,
            item_id: "t1",
            item_class: ItemClass::Ticket,
            payload: &MutationPayload::UpdateTitleBody(TitleBody {
                title: "New title".into(),
                body: "New body".into(),
            }),
            promotion_operation_id: Some("promo-1"),
            now_iso: "2026-05-09T00:00:00.000Z",
        },
    )
    .unwrap();

    let stored = store.mutation(0).promotion_operation_id.clone();
    assert_eq!(stored.as_deref(), Some("promo-1"));
}

#[test]
fn append_serializes_epic_ref_for_add_ticket_to_epic() {
    let mut store = open_seeded();
    log_seed_backend_ticket(&mut store, "t1", "tk-1", 1);

    append(
        &mut store,
        AppendRequest {
            mutation_type: MutationType::AddTicketToEpic,
            item_id: "t1",
            item_class: ItemClass::Ticket,
            payload: &MutationPayload::EpicRef(EpicRef {
                epic_id: "epic-internal-id".into(),
            }),
            promotion_operation_id: None,
            now_iso: "2026-05-09T00:00:00.000Z",
        },
    )
    .unwrap();

    let payload = payloads(&store)[0];
    assert_eq!(payload, r#"{"epic_id":"epic-internal-id"}"#);
}

#[test]
fn append_serializes_status_change_payload() {
    let mut store = open_seeded();
    log_seed_backend_ticket(&mut store, "t1", "tk-1", 1);

    append(
        &mut store,
        AppendRequest {
            mutation_type: MutationType::SetItemStatus,
            item_id: "t1",
            item_class: ItemClass::Ticket,
            payload: &MutationPayload::ItemStatus(StatusChange {
                status: ItemStatus::Done,
            }),
            promotion_operation_id: None,
            now_iso: "2026-05-09T00:00:00.000Z",
        },
    )
    .unwrap();

    let payload = payloads(&store)[0];
    assert_eq!(payload, r#"{"status":"done"}"#);
}

#[test]
fn append_serializes_dependency_ref_payload() {
    let mut store = open_seeded();
    log_seed_backend_ticket(&mut store, "t1", "tk-1", 1);

    append(
        &mut store,
        AppendRequest {
            mutation_type: MutationType::AddDependency,
            item_id: "t1",
            item_class: ItemClass::Ticket,
            payload: &MutationPayload::DependencyRef(DependencyRef {
                blocking_id: "blocker-id".into(),
            }),
            promotion_operation_id: None,
            now_iso: "2026-05-09T00:00:00.000Z",
        },
    )
    .unwrap();

    let payload = payloads(&store)[0];
    assert_eq!(payload, r#"{"blocking_id":"blocker-id"}"#);
}

#[test]
fn append_returns_monotonically_increasing_sequences() {
    let mut store = open_seeded();
    log_seed_backend_ticket(&mut store, "t1", "tk-1", 1);

    let one = append(
        &mut store,
        AppendRequest {
            mutation_type: MutationType::UpdateTicket,
            item_id: "t1",
            item_class: ItemClass::Ticket,
            payload: &MutationPayload::UpdateTitleBody(TitleBody {
                title: "A".into(),
                body: String::new(),
            }),
            promotion_operation_id: None,
            now_iso: "2026-05-09T00:00:00.000Z",
        },
    )
    .unwrap();
    let two = append(
        &mut store,
        AppendRequest {
            mutation_type: MutationType::UpdateTicket,
            item_id: "t1",
            item_class: ItemClass::Ticket,
            payload: &MutationPayload::UpdateTitleBody(TitleBody {
                title: "B".into(),
                body: String::new(),
            }),
            promotion_operation_id: None,
            now_iso: "2026-05-09T00:00:00.000Z",
        },
    )
    .unwrap();
    let three = append(
        &mut store,
        AppendRequest {
            mutation_type: MutationType::UpdateTicket,
            item_id: "t1",
            item_class: ItemClass::Ticket,
            payload: &MutationPayload::UpdateTitleBody(TitleBody {
                title: "C".into(),
                body: String::new(),
            }),
            promotion_operation_id: None,
            now_iso: "2026-05-09T00:00:00.000Z",
        },
    )
    .unwrap();

    assert_eq!((one, two, three), (1, 2, 3));
    let count = store.mutation_count();
    assert_eq!(count, 3);
}

#[test]
fn append_advances_the_mutation_sequence_counter() {
    let mut store = open_seeded();
    log_seed_backend_ticket(&mut store, "t1", "tk-1", 1);

    let initial = store.counter(Counter::Mutation).unwrap();
    assert_eq!(initial, 0);

    append(
        &mut store,
        AppendRequest {
            mutation_type: MutationType::UpdateTicket,
            item_id: "t1",
            item_class: ItemClass::Ticket,
            payload: &MutationPayload::UpdateTitleBody(TitleBody {
                title: "X".into(),
                body: String::new(),
            }),
            promotion_operation_id: None,
            now_iso: "2026-05-09T00:00:00.000Z",
        },
    )
    .unwrap();
    append(
        &mut store,
        AppendRequest {
            mutation_type: MutationType::UpdateTicket,
            item_id: "t1",
            item_class: ItemClass::Ticket,
            payload: &MutationPayload::UpdateTitleBody(TitleBody {
                title: "Y".into(),
                body: String::new(),
            }),
            promotion_operation_id: None,
            now_iso: "2026-05-09T00:00:00.000Z",
        },
    )
    .unwrap();

    let after = store.counter(Counter::Mutation).unwrap();
    assert_eq!(after, 2);
}

fn log_seed_local_ticket(store: &mut Store, id: &str, display: &str) {
    insert_fixture_item(
        store,
        FixtureItem {
            id,
            display,
            title: "Local",
            created_seq: 1,
            ..FixtureItem::default()
        },
    )
    .unwrap();
}

fn log_seed_promotion(store: &mut Store, item_id: &str, state: &str, backend_kind: &str) {
    let payload = MutationPayload::Promotion(Promotion {
        title: "Local".into(),
        body: String::new(),
        backend_kind: backend_kind.into(),
    })
    .to_json_string();
    insert_fixture_mutation(
        store,
        FixtureMutation {
            mutation_type: "promote_ticket",
            item_id,
            payload_json: &payload,
            state,
            failure_json: (state == "failed").then_some(r#"{"detail":"boom"}"#),
            promotion_operation_id: Some("promo-1"),
            ..FixtureMutation::default()
        },
    )
    .unwrap();
}

#[test]
fn a_backend_item_carries_the_backend_it_already_belongs_to() {
    let mut store = open_seeded();
    log_seed_backend_ticket(&mut store, "t1", "tk-1", 1);

    assert_eq!(
        resolve_backend_binding(&store, "t1").unwrap(),
        BackendBinding::Backend {
            backend_kind: "github".into()
        }
    );
}

#[test]
fn a_local_item_without_a_promotion_has_no_backend_binding() {
    let mut store = open_seeded();
    log_seed_local_ticket(&mut store, "t1", "tk-1");

    assert_eq!(
        resolve_backend_binding(&store, "t1").unwrap(),
        BackendBinding::Local
    );
}

#[test]
fn a_pending_promotion_takes_its_backend_from_the_payload_not_the_remote() {
    let mut store = open_seeded();
    log_seed_local_ticket(&mut store, "t1", "tk-1");
    store.set_remote_kind(Some(BackendKind::Jira));
    log_seed_promotion(&mut store, "t1", "pending", "github");

    assert_eq!(
        resolve_backend_binding(&store, "t1").unwrap(),
        BackendBinding::PendingPromotion {
            backend_kind: "github".into()
        }
    );
}

#[test]
fn a_failed_promotion_still_leaves_the_item_pending_promotion() {
    let mut store = open_seeded();
    log_seed_local_ticket(&mut store, "t1", "tk-1");
    log_seed_promotion(&mut store, "t1", "failed", "github");

    assert_eq!(
        resolve_backend_binding(&store, "t1").unwrap(),
        BackendBinding::PendingPromotion {
            backend_kind: "github".into()
        }
    );
}

#[test]
fn an_applying_promotion_still_leaves_the_item_pending_promotion() {
    let mut store = open_seeded();
    log_seed_local_ticket(&mut store, "t1", "tk-1");
    log_seed_promotion(&mut store, "t1", "applying", "github");

    assert_eq!(
        resolve_backend_binding(&store, "t1").unwrap(),
        BackendBinding::PendingPromotion {
            backend_kind: "github".into()
        }
    );
}

#[test]
fn a_resolved_promotion_does_not_make_a_local_item_pending() {
    for state in ["applied", "cancelled"] {
        let mut store = open_seeded();
        log_seed_local_ticket(&mut store, "t1", "tk-1");
        log_seed_promotion(&mut store, "t1", state, "github");

        assert_eq!(
            resolve_backend_binding(&store, "t1").unwrap(),
            BackendBinding::Local,
            "a {state} Promotion is resolved intent"
        );
    }
}

#[test]
fn a_non_promotion_mutation_does_not_make_an_item_pending_promotion() {
    let mut store = open_seeded();
    log_seed_local_ticket(&mut store, "t1", "tk-1");
    insert_fixture_mutation(
        &mut store,
        FixtureMutation {
            mutation_type: "update_ticket",
            item_id: "t1",
            payload_json: r#"{"title":"T","body":""}"#,
            ..FixtureMutation::default()
        },
    )
    .unwrap();

    assert_eq!(
        resolve_backend_binding(&store, "t1").unwrap(),
        BackendBinding::Local
    );
}

#[test]
fn every_promotion_mutation_type_makes_its_item_pending_promotion() {
    let payload = MutationPayload::Promotion(Promotion {
        title: "Local".into(),
        body: String::new(),
        backend_kind: "github".into(),
    })
    .to_json_string();

    for mutation_type in [MutationType::PromoteTicket, MutationType::PromoteEpic] {
        let mut store = open_seeded();
        log_seed_local_ticket(&mut store, "t1", "tk-1");
        insert_fixture_item(
            &mut store,
            FixtureItem {
                id: "e1",
                display: "tk-2",
                item_class: "epic",
                ticket_kind: None,
                priority: None,
                title: "Local epic",
                created_seq: 2,
                ..FixtureItem::default()
            },
        )
        .unwrap();
        let (item_id, item_class) = match mutation_type {
            MutationType::PromoteEpic => ("e1", "epic"),
            _ => ("t1", "ticket"),
        };
        insert_fixture_mutation(
            &mut store,
            FixtureMutation {
                mutation_type: mutation_type.text(),
                item_id,
                item_class,
                payload_json: &payload,
                ..FixtureMutation::default()
            },
        )
        .unwrap();

        assert_eq!(
            resolve_backend_binding(&store, item_id).unwrap(),
            BackendBinding::PendingPromotion {
                backend_kind: "github".into()
            },
            "{mutation_type:?} must leave its Item Pending Promotion"
        );
    }
}

#[test]
fn a_promotion_payload_that_does_not_decode_is_a_typed_fault() {
    let mut store = open_seeded();
    log_seed_local_ticket(&mut store, "t1", "tk-1");
    insert_fixture_mutation(
        &mut store,
        FixtureMutation {
            mutation_type: "promote_ticket",
            item_id: "t1",
            payload_json: r#"{"title":"T"}"#,
            ..FixtureMutation::default()
        },
    )
    .unwrap();

    let err = resolve_backend_binding(&store, "t1").unwrap_err();
    assert!(
        matches!(err, BackendBindingError::PayloadJson(_)),
        "a promote_* row without a Backend is store corruption, got {err:?}"
    );
}

// ---- transition ------------------------------------------------------

fn log_seed_row(
    store: &mut Store,
    mutation_type: MutationType,
    state: MutationState,
    failure_json: Option<&str>,
) {
    log_seed_local_ticket(store, "t1", "tk-1");
    let payload = if mutation_type.is_promotion() {
        MutationPayload::Promotion(Promotion {
            title: "Local".into(),
            body: String::new(),
            backend_kind: "github".into(),
        })
    } else {
        MutationPayload::UpdateTitleBody(TitleBody {
            title: "Local".into(),
            body: String::new(),
        })
    }
    .to_json_string();
    insert_fixture_mutation(
        store,
        FixtureMutation {
            mutation_type: mutation_type.text(),
            item_id: "t1",
            payload_json: &payload,
            state: state.text(),
            failure_json,
            promotion_operation_id: mutation_type.is_promotion().then_some("promo-1"),
            ..FixtureMutation::default()
        },
    )
    .unwrap();
}

fn log_read_row(store: &Store) -> (MutationState, Option<String>, String) {
    let row = store.mutation(store.find_mutation(1).unwrap());
    (row.state, row.failure_json.clone(), row.state_changed_at.clone())
}

fn log_failure() -> &'static str {
    r#"{"detail":"rejected","class":"validation","retry_after_s":null}"#
}

fn log_transition_row(
    store: &mut Store,
    from: MutationState,
    to: MutationState,
    failure: Option<&str>,
) -> Result<(), TransitionError> {
    transition(
        store,
        TransitionRequest {
            sequence: 1,
            from,
            to,
            failure,
            now: LATER,
        },
    )
}

#[test]
fn beginning_a_creation_clears_the_previous_attempts_failure() {
    let mut store = open_seeded();
    log_seed_row(
        &mut store,
        MutationType::PromoteTicket,
        MutationState::Failed,
        Some(r#"{"detail":"old"}"#),
    );

    log_transition_row(&mut store, MutationState::Failed, MutationState::Applying, None).unwrap();

    assert_eq!(
        log_read_row(&store),
        (MutationState::Applying, None, LATER.to_string())
    );
}

#[test]
fn a_certified_rejection_records_its_failure_evidence() {
    let mut store = open_seeded();
    log_seed_row(
        &mut store,
        MutationType::PromoteTicket,
        MutationState::Applying,
        None,
    );

    log_transition_row(
        &mut store,
        MutationState::Applying,
        MutationState::Failed,
        Some(log_failure()),
    )
    .unwrap();

    let (state, stored, _) = log_read_row(&store);
    assert_eq!(state, MutationState::Failed);
    assert_eq!(stored.as_deref(), Some(log_failure()));
}

#[test]
fn an_indeterminate_creation_records_its_failure_and_stays_applying() {
    let mut store = open_seeded();
    log_seed_row(
        &mut store,
        MutationType::PromoteTicket,
        MutationState::Applying,
        None,
    );

    log_transition_row(
        &mut store,
        MutationState::Applying,
        MutationState::Applying,
        Some(log_failure()),
    )
    .unwrap();

    let (state, stored, changed_at) = log_read_row(&store);
    assert_eq!(state, MutationState::Applying);
    assert!(stored.is_some());
    assert_eq!(changed_at, LATER);
}

#[test]
fn sync_skip_preserves_the_failure_it_curated_away() {
    let mut store = open_seeded();
    log_seed_row(
        &mut store,
        MutationType::UpdateTicket,
        MutationState::Failed,
        Some(r#"{"detail":"boom"}"#),
    );

    log_transition_row(&mut store, MutationState::Failed, MutationState::Skipped, None).unwrap();

    assert_eq!(
        log_read_row(&store),
        (
            MutationState::Skipped,
            Some(r#"{"detail":"boom"}"#.to_string()),
            LATER.to_string()
        )
    );
}

#[test]
fn returning_an_indeterminate_creation_to_the_queue_clears_its_failure() {
    let mut store = open_seeded();
    log_seed_row(
        &mut store,
        MutationType::PromoteTicket,
        MutationState::Applying,
        Some(r#"{"detail":"?"}"#),
    );

    log_transition_row(&mut store, MutationState::Applying, MutationState::Pending, None).unwrap();

    assert_eq!(
        log_read_row(&store),
        (MutationState::Pending, None, LATER.to_string())
    );
}

#[test]
fn applying_a_mutation_clears_the_failure_of_the_attempt_that_preceded_it() {
    let mut store = open_seeded();
    log_seed_row(
        &mut store,
        MutationType::UpdateTicket,
        MutationState::Failed,
        Some(r#"{"detail":"boom"}"#),
    );

    log_transition_row(&mut store, MutationState::Failed, MutationState::Applied, None).unwrap();

    assert_eq!(
        log_read_row(&store),
        (MutationState::Applied, None, LATER.to_string())
    );
}

#[test]
fn promotion_cancellation_withdraws_untried_and_rejected_intent_alike() {
    for (from, seeded_failure) in [
        (MutationState::Pending, None),
        (MutationState::Failed, Some(r#"{"detail":"boom"}"#)),
    ] {
        let mut store = open_seeded();
        log_seed_row(&mut store, MutationType::PromoteTicket, from, seeded_failure);

        log_transition_row(&mut store, from, MutationState::Cancelled, None).unwrap();

        let (state, stored, _) = log_read_row(&store);
        assert_eq!(state, MutationState::Cancelled);
        assert_eq!(
            stored.as_deref(),
            seeded_failure,
            "a withdrawal keeps the evidence of the rejection that motivated it"
        );
    }
}

#[test]
fn withdrawing_an_indeterminate_creation_abandons_it_and_keeps_its_evidence() {
    let mut store = open_seeded();
    log_seed_row(
        &mut store,
        MutationType::PromoteTicket,
        MutationState::Applying,
        Some(r#"{"detail":"?"}"#),
    );

    log_transition_row(
        &mut store,
        MutationState::Applying,
        MutationState::Abandoned,
        None,
    )
    .unwrap();

    assert_eq!(
        log_read_row(&store),
        (
            MutationState::Abandoned,
            Some(r#"{"detail":"?"}"#.to_string()),
            LATER.to_string()
        ),
        "the indeterminate diagnostic is why the withdrawal happened"
    );
}

#[test]
fn an_indeterminate_creation_is_abandoned_rather_than_cancelled() {
    // `cancelled` means nothing was created. An unobserved outcome has to
    // land in its own state or that meaning stops holding.
    let mut store = open_seeded();
    log_seed_row(
        &mut store,
        MutationType::PromoteTicket,
        MutationState::Applying,
        None,
    );

    let err = log_transition_row(
        &mut store,
        MutationState::Applying,
        MutationState::Cancelled,
        None,
    )
    .unwrap_err();

    assert!(
        matches!(
            err,
            TransitionError::Illegal(IllegalTransition::Edge { .. })
        ),
        "got {err:?}"
    );
    assert_eq!(log_read_row(&store).0, MutationState::Applying);
}

#[test]
fn an_edge_outside_the_transition_table_is_refused() {
    // Terminal states have no exit, and no workflow reaches `skipped`
    // from anything but a certified rejection.
    for (from, to) in [
        (MutationState::Applied, MutationState::Pending),
        (MutationState::Skipped, MutationState::Applying),
        (MutationState::Pending, MutationState::Skipped),
        (MutationState::Cancelled, MutationState::Pending),
        (MutationState::Applied, MutationState::Applied),
    ] {
        let mut store = open_seeded();
        log_seed_row(&mut store, MutationType::UpdateTicket, from, None);

        let err = log_transition_row(&mut store, from, to, Some(log_failure())).unwrap_err();
        assert!(
            matches!(
                err,
                TransitionError::Illegal(IllegalTransition::Edge { .. })
            ),
            "{from:?} -> {to:?} is not a legal edge, got {err:?}"
        );
        assert_eq!(log_read_row(&store).0, from, "a refused edge writes nothing");
    }
}

#[test]
fn only_an_unobserved_creation_is_abandoned_and_nothing_leaves_it() {
    for (from, to) in [
        (MutationState::Pending, MutationState::Abandoned),
        (MutationState::Failed, MutationState::Abandoned),
        (MutationState::Applied, MutationState::Abandoned),
        (MutationState::Abandoned, MutationState::Pending),
        (MutationState::Abandoned, MutationState::Applied),
    ] {
        let mut store = open_seeded();
        let seeded = match from {
            MutationState::Failed => Some(r#"{"detail":"boom"}"#),
            _ => None,
        };
        log_seed_row(&mut store, MutationType::PromoteTicket, from, seeded);

        let err = log_transition_row(&mut store, from, to, Some(log_failure())).unwrap_err();
        assert!(
            matches!(
                err,
                TransitionError::Illegal(IllegalTransition::Edge { .. })
            ),
            "{from:?} -> {to:?} is not a legal edge, got {err:?}"
        );
        assert_eq!(log_read_row(&store).0, from, "a refused edge writes nothing");
    }
}

#[test]
fn a_row_that_left_the_expected_state_is_refused() {
    let mut store = open_seeded();
    log_seed_row(
        &mut store,
        MutationType::UpdateTicket,
        MutationState::Pending,
        None,
    );

    let err = log_transition_row(&mut store, MutationState::Applying, MutationState::Pending, None)
        .unwrap_err();

    assert!(
        matches!(
            err,
            TransitionError::Illegal(IllegalTransition::Edge { .. })
        ),
        "got {err:?}"
    );
}

#[test]
fn an_edge_that_records_evidence_refuses_to_run_without_it() {
    let mut store = open_seeded();
    log_seed_row(
        &mut store,
        MutationType::UpdateTicket,
        MutationState::Pending,
        None,
    );

    let err =
        log_transition_row(&mut store, MutationState::Pending, MutationState::Failed, None).unwrap_err();

    assert!(
        matches!(
            err,
            TransitionError::Illegal(IllegalTransition::MissingEvidence { .. })
        ),
        "got {err:?}"
    );
    assert_eq!(log_read_row(&store).0, MutationState::Pending);
}

#[test]
fn marking_applied_advances_the_sync_cursor_monotonically() {
    let mut store = open_seeded();
    store.set_remote_kind(Some(BackendKind::Github));
    store.set_cursor(Some(SyncCursor { last_applied_sequence: 0, updated_at: NOW.to_owned() }));
    log_seed_backend_ticket(&mut store, "t1", "tk-1", 1);
    for sequence in [4, 9] {
        insert_fixture_mutation(
            &mut store,
            FixtureMutation {
                sequence,
                mutation_type: "update_ticket",
                item_id: "t1",
                payload_json: r#"{"title":"T","body":""}"#,
                ..FixtureMutation::default()
            },
        )
        .unwrap();
    }

    mark_applied(&mut store, 9, MutationState::Pending, LATER).unwrap();
    mark_applied(&mut store, 4, MutationState::Pending, LATER).unwrap();

    let cursor = store.cursor().unwrap().last_applied_sequence;
    assert_eq!(cursor, 9, "an out-of-order apply never rewinds the cursor");
}
