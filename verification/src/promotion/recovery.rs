//! Recovery of a Promotion whose outcome is not settled.

use vstd::prelude::*;

use crate::domain::{BackendKind, ItemClass, MutationState, MutationType, Origin, TicketKind};
use crate::mutations::{
    append, appended, applied, awaited_before, awaited_promotion, awaited_promotion_of,
    mark_applied, places, promotion_of, transition, transitioned, AppendError, AppendRequest,
    AppendView, IllegalTransition, Pick, TransitionError, TransitionRequest,
};
use crate::payload::{
    json_object, promotion_in, read_promotion, title_body_pairs, MutationPayload, Promotion,
    PromotionView, TitleBody,
};
use crate::rows::{text_is, MutationView};
use crate::select::{in_table, picked};
use crate::sync::{
    configured_remote_kind, ensure_backend_cohort, kind_named, parse_kind, retained_elsewhere,
    BackendCohortError,
};
use crate::tables::{keys, lemma_at, Fault, Store, StoreView};
use crate::text::{folded, same_folded, same_text};

use super::receipt::{
    apply_receipt, receipt_applied, ApplyReceiptError, BackendItemIdentity, ReceiptFault,
};

verus! {

/// What is needed to recover one Promotion that awaits its outcome.
#[derive(Clone, Debug, PartialEq, Eq)]
pub struct RecoveryPromotion {
    /// Mutation Sequence that fixes recovery ordering.
    pub sequence: i64,
    /// Local Display ID to retain as an Alias when reconciliation succeeds.
    pub outgoing_display_id: String,
    /// The Item as it stood when the Promotion was committed.
    pub promotion: Promotion,
    /// The Backend that the Promotion is meant for.
    pub backend_kind: BackendKind,
    /// Current Ticket Kind; `None` for Epics.
    pub ticket_kind: Option<TicketKind>,
    /// Mutation state as of this read.
    pub state: MutationState,
    /// Stable internal Item ID.
    pub item_id: String,
    pub item_class: ItemClass,
    /// Promotion Operation grouping as of this read.
    pub operation_id: String,
}

/// The model of [`RecoveryPromotion`].
#[verifier::ext_equal]
pub struct RecoveryView {
    pub sequence: int,
    pub outgoing_display_id: Seq<char>,
    pub promotion: PromotionView,
    pub backend_kind: BackendKind,
    pub ticket_kind: Option<TicketKind>,
    pub state: MutationState,
    pub item_id: Seq<char>,
    pub item_class: ItemClass,
    pub operation_id: Seq<char>,
}

impl View for RecoveryPromotion {
    type V = RecoveryView;

    open spec fn view(&self) -> RecoveryView {
        RecoveryView {
            sequence: self.sequence as int,
            outgoing_display_id: self.outgoing_display_id@,
            promotion: self.promotion@,
            backend_kind: self.backend_kind,
            ticket_kind: self.ticket_kind,
            state: self.state,
            item_id: self.item_id@,
            item_class: self.item_class,
            operation_id: self.operation_id@,
        }
    }
}

/// Why a Promotion could not be located or changed.
#[derive(Debug)]
pub enum RecoveryPromotionError {
    Storage(Fault),
    NoRecoverablePromotion(String),
    TerminalPromotion { item_id: String, sequence: i64, state: MutationState },
    MultipleNonterminalPromotions { item_id: String, first: i64, second: i64 },
    MalformedPayload { sequence: i64 },
    MalformedBackendKind { sequence: i64, backend_kind: String },
    MissingOperationId(i64),
    WrongMutationShape { sequence: i64, mutation_type: MutationType, item_class: ItemClass },
    TargetNotLocal { sequence: i64 },
    /// The confirmed Backend identity already belongs to another Item.
    BackendIdentityTaken { display_id: String },
    /// Only an unobserved creation is retried; a failed one is attempted again
    /// without recovery.
    RetryNotApplying { sequence: i64, state: MutationState },
    RemoteChanged { expected: BackendKind, actual: Option<BackendKind> },
    BackendCohort(BackendCohortError),
    EarlierNonterminal { sequence: i64, state: MutationState },
    Receipt(ApplyReceiptError),
    Append(AppendError),
    Transition(IllegalTransition),
}

/// The model of [`RecoveryPromotionError`].
pub enum RecoveryFault {
    Storage(Fault),
    NoRecoverablePromotion(Seq<char>),
    TerminalPromotion(Seq<char>, int, MutationState),
    MultipleNonterminalPromotions(Seq<char>, int, int),
    MalformedPayload(int),
    MalformedBackendKind(int, Seq<char>),
    MissingOperationId(int),
    WrongMutationShape(int, MutationType, ItemClass),
    TargetNotLocal(int),
    BackendIdentityTaken(Seq<char>),
    RetryNotApplying(int, MutationState),
    RemoteChanged(BackendKind, Option<BackendKind>),
    BackendCohort(BackendCohortError),
    EarlierNonterminal(int, MutationState),
    Receipt(ReceiptFault),
    Append(AppendError),
    Transition(IllegalTransition),
}

impl View for RecoveryPromotionError {
    type V = RecoveryFault;

    open spec fn view(&self) -> RecoveryFault {
        match self {
            RecoveryPromotionError::Storage(fault) => RecoveryFault::Storage(*fault),
            RecoveryPromotionError::NoRecoverablePromotion(id) => {
                RecoveryFault::NoRecoverablePromotion(id@)
            },
            RecoveryPromotionError::TerminalPromotion { item_id, sequence, state } => {
                RecoveryFault::TerminalPromotion(item_id@, *sequence as int, *state)
            },
            RecoveryPromotionError::MultipleNonterminalPromotions { item_id, first, second } => {
                RecoveryFault::MultipleNonterminalPromotions(
                    item_id@,
                    *first as int,
                    *second as int,
                )
            },
            RecoveryPromotionError::MalformedPayload { sequence } => {
                RecoveryFault::MalformedPayload(*sequence as int)
            },
            RecoveryPromotionError::MalformedBackendKind { sequence, backend_kind } => {
                RecoveryFault::MalformedBackendKind(*sequence as int, backend_kind@)
            },
            RecoveryPromotionError::MissingOperationId(sequence) => {
                RecoveryFault::MissingOperationId(*sequence as int)
            },
            RecoveryPromotionError::WrongMutationShape { sequence, mutation_type, item_class } => {
                RecoveryFault::WrongMutationShape(*sequence as int, *mutation_type, *item_class)
            },
            RecoveryPromotionError::TargetNotLocal { sequence } => {
                RecoveryFault::TargetNotLocal(*sequence as int)
            },
            RecoveryPromotionError::BackendIdentityTaken { display_id } => {
                RecoveryFault::BackendIdentityTaken(display_id@)
            },
            RecoveryPromotionError::RetryNotApplying { sequence, state } => {
                RecoveryFault::RetryNotApplying(*sequence as int, *state)
            },
            RecoveryPromotionError::RemoteChanged { expected, actual } => {
                RecoveryFault::RemoteChanged(*expected, *actual)
            },
            RecoveryPromotionError::BackendCohort(error) => RecoveryFault::BackendCohort(*error),
            RecoveryPromotionError::EarlierNonterminal { sequence, state } => {
                RecoveryFault::EarlierNonterminal(*sequence as int, *state)
            },
            RecoveryPromotionError::Receipt(error) => RecoveryFault::Receipt(error@),
            RecoveryPromotionError::Append(error) => RecoveryFault::Append(*error),
            RecoveryPromotionError::Transition(error) => RecoveryFault::Transition(*error),
        }
    }
}

/// The fault of a refused state change.
pub open spec fn transition_fault(error: TransitionError) -> RecoveryFault {
    match error {
        TransitionError::Storage(fault) => RecoveryFault::Storage(fault),
        TransitionError::Illegal(illegal) => RecoveryFault::Transition(illegal),
    }
}

fn from_transition(error: TransitionError) -> (r: RecoveryPromotionError)
    ensures
        r@ == transition_fault(error),
{
    match error {
        TransitionError::Storage(fault) => RecoveryPromotionError::Storage(fault),
        TransitionError::Illegal(illegal) => RecoveryPromotionError::Transition(illegal),
    }
}

/// The one Promotion of an Item that awaits its outcome, or why there is none
/// to recover.
pub open spec fn recoverable(v: StoreView, id: Seq<char>) -> Result<RecoveryView, RecoveryFault> {
    let rows = v.mutations.filter(awaited_promotion_of(id));
    let all = v.mutations.filter(promotion_of(id));
    if rows.len() > 1 {
        Err(
            RecoveryFault::MultipleNonterminalPromotions(
                id,
                rows[0].sequence,
                rows[1].sequence,
            ),
        )
    } else if rows.len() == 0 {
        if all.len() > 0 {
            Err(RecoveryFault::TerminalPromotion(id, all[0].sequence, all[0].state))
        } else {
            Err(RecoveryFault::NoRecoverablePromotion(id))
        }
    } else {
        let row = rows[0];
        if row.mutation_type != row.item_class.promote_type() {
            Err(RecoveryFault::WrongMutationShape(row.sequence, row.mutation_type, row.item_class))
        } else {
            match promotion_in(row.payload_json) {
                None => Err(RecoveryFault::MalformedPayload(row.sequence)),
                Some(promotion) => match kind_named(promotion.backend_kind) {
                    None => Err(
                        RecoveryFault::MalformedBackendKind(row.sequence, promotion.backend_kind),
                    ),
                    Some(backend_kind) => match row.promotion_operation_id {
                        None => Err(RecoveryFault::MissingOperationId(row.sequence)),
                        Some(operation_id) => Ok(
                            RecoveryView {
                                sequence: row.sequence,
                                outgoing_display_id: v.item(id).display_id,
                                promotion,
                                backend_kind,
                                ticket_kind: v.item(id).ticket_kind,
                                state: row.state,
                                item_id: id,
                                item_class: row.item_class,
                                operation_id,
                            },
                        ),
                    },
                },
            }
        }
    }
}

/// A Mutation's target is an Item of the store.
pub proof fn lemma_mutation_target(v: StoreView, i: int)
    requires
        v.wf(),
        0 <= i < v.mutations.len(),
    ensures
        v.has(v.mutations[i].item_id),
        v.item(v.mutations[i].item_id).item_class == v.mutations[i].item_class,
{
    let m = v.mutations[i];
    let all = keys(v.items);
    let k = choose|k: int| 0 <= k < all.len() && all[k] == (m.item_id, m.item_class);
    lemma_at(v, k);
}

/// Load the one Promotion of the Item that awaits its outcome.
pub fn recoverable_promotion(store: &Store, item_id: &str) -> (r: Result<
    RecoveryPromotion,
    RecoveryPromotionError,
>)
    requires
        store.wf(),
    ensures
        match r {
            Ok(found) => recoverable(store@, item_id@) == Ok::<RecoveryView, RecoveryFault>(
                found@,
            ) && store@.has(item_id@),
            Err(error) => recoverable(store@, item_id@) == Err::<RecoveryView, RecoveryFault>(
                error@,
            ),
        },
{
    let rows = places(store, &Pick::AwaitedPromotionOf(item_id));
    let ghost picks = picked(store@.mutations, rows@);
    if rows.len() > 1 {
        proof {
            assert(picks[0] == store@.mutations[rows@[0] as int]);
            assert(picks[1] == store@.mutations[rows@[1] as int]);
        }
        return Err(
            RecoveryPromotionError::MultipleNonterminalPromotions {
                item_id: item_id.to_owned(),
                first: store.mutation(rows[0]).sequence,
                second: store.mutation(rows[1]).sequence,
            },
        );
    }
    if rows.len() == 0 {
        let all = places(store, &Pick::PromotionOf(item_id));
        if all.len() == 0 {
            return Err(RecoveryPromotionError::NoRecoverablePromotion(item_id.to_owned()));
        }
        let first = store.mutation(all[0]);
        proof {
            assert(picked(store@.mutations, all@)[0] == first@);
        }
        return Err(
            RecoveryPromotionError::TerminalPromotion {
                item_id: item_id.to_owned(),
                sequence: first.sequence,
                state: first.state,
            },
        );
    }
    let row = store.mutation(rows[0]);
    proof {
        assert(picks[0] == row@);
        lemma_mutation_target(store@, rows@[0] as int);
    }
    let shaped = match (row.mutation_type, row.item_class) {
        (MutationType::PromoteTicket, ItemClass::Ticket) => true,
        (MutationType::PromoteEpic, ItemClass::Epic) => true,
        _ => false,
    };
    if !shaped {
        return Err(
            RecoveryPromotionError::WrongMutationShape {
                sequence: row.sequence,
                mutation_type: row.mutation_type,
                item_class: row.item_class,
            },
        );
    }
    let promotion = match read_promotion(row.payload_json.as_str()) {
        Ok(promotion) => promotion,
        Err(_) => {
            return Err(RecoveryPromotionError::MalformedPayload { sequence: row.sequence });
        },
    };
    let backend_kind = match parse_kind(promotion.backend_kind.as_str()) {
        Some(kind) => kind,
        None => {
            return Err(
                RecoveryPromotionError::MalformedBackendKind {
                    sequence: row.sequence,
                    backend_kind: promotion.backend_kind,
                },
            );
        },
    };
    let operation_id = match &row.promotion_operation_id {
        Some(operation_id) => operation_id.clone(),
        None => {
            return Err(RecoveryPromotionError::MissingOperationId(row.sequence));
        },
    };
    match store.find(item_id) {
        Some(i) => {
            let item = store.item(i);
            Ok(
                RecoveryPromotion {
                    sequence: row.sequence,
                    outgoing_display_id: item.display_id.clone(),
                    promotion,
                    backend_kind,
                    ticket_kind: item.ticket_kind,
                    state: row.state,
                    item_id: item_id.to_owned(),
                    item_class: row.item_class,
                    operation_id,
                },
            )
        },
        None => Err(RecoveryPromotionError::Storage(Fault::NoRow)),
    }
}

/// One Promotion that awaits its outcome, with the Display ID its Item has.
#[derive(Clone, Debug, PartialEq, Eq)]
pub struct RecoveryPromotionMapping {
    /// Promotion Mutation Sequence order.
    pub sequence: i64,
    /// Stable internal Item ID.
    pub item_id: String,
    /// Display ID before a receipt replaces it.
    pub outgoing_display_id: String,
    pub item_class: ItemClass,
}

impl RecoveryPromotionMapping {
    /// Whether the mapping shows the Promotion.
    pub open spec fn shows(&self, v: StoreView, m: MutationView) -> bool {
        &&& self.sequence == m.sequence
        &&& self.item_id@ == m.item_id
        &&& self.outgoing_display_id@ == v.item(m.item_id).display_id
        &&& self.item_class == m.item_class
    }
}

/// Whether two of the first Mutations share their target.
pub open spec fn targets_repeat(rows: Seq<MutationView>, before: int) -> bool {
    exists|i: int, j: int|
        0 <= i < j < before && (#[trigger] rows[i]).item_id == (#[trigger] rows[j]).item_id
}

/// Capture every Promotion that awaits its outcome, with the Display ID that
/// its Item has now.
pub fn capture_recovery_mappings(store: &Store) -> (r: Result<
    Vec<RecoveryPromotionMapping>,
    RecoveryPromotionError,
>)
    requires
        store.wf(),
    ensures
        ({
            let rows = store@.mutations.filter(awaited_promotion());
            match r {
                Ok(mappings) => {
                    &&& !targets_repeat(rows, rows.len() as int)
                    &&& mappings@.len() == rows.len()
                    &&& forall|i: int|
                        0 <= i < rows.len() ==> (#[trigger] mappings@[i]).shows(store@, rows[i])
                },
                Err(error) => exists|i: int, j: int|
                    0 <= i < j < rows.len() && (#[trigger] rows[i]).item_id == (
                    #[trigger] rows[j]).item_id && !targets_repeat(rows, j) && error@
                        == RecoveryFault::MultipleNonterminalPromotions(
                        rows[i].item_id,
                        rows[i].sequence,
                        rows[j].sequence,
                    ),
            }
        }),
{
    let at = places(store, &Pick::AwaitedPromotion);
    let ghost rows = picked(store@.mutations, at@);
    let mut out: Vec<RecoveryPromotionMapping> = Vec::new();
    let mut j: usize = 0;
    while j < at.len()
        invariant
            0 <= j <= at@.len(),
            store.wf(),
            in_table(at@, store@.mutations.len() as int),
            rows == picked(store@.mutations, at@),
            rows == store@.mutations.filter(awaited_promotion()),
            out@.len() == j,
            forall|k: int| 0 <= k < j ==> (#[trigger] out@[k]).shows(store@, rows[k]),
            !targets_repeat(rows, j as int),
        decreases at@.len() - j,
    {
        let m = store.mutation(at[j]);
        proof {
            assert(rows[j as int] == m@);
            lemma_mutation_target(store@, at@[j as int] as int);
        }
        let mut i: usize = 0;
        while i < j
            invariant
                0 <= i <= j,
                j < at@.len(),
                out@.len() == j,
                rows.len() == at@.len(),
                rows == store@.mutations.filter(awaited_promotion()),
                rows[j as int] == m@,
                !targets_repeat(rows, j as int),
                forall|k: int| 0 <= k < j ==> (#[trigger] out@[k]).shows(store@, rows[k]),
                forall|k: int| 0 <= k < i ==> (#[trigger] rows[k]).item_id != m.item_id@,
            decreases j - i,
        {
            proof {
                assert(out@[i as int].shows(store@, rows[i as int]));
            }
            if same_text(out[i].item_id.as_str(), m.item_id.as_str()) {
                proof {
                    assert(rows[i as int].item_id == rows[j as int].item_id);
                }
                return Err(
                    RecoveryPromotionError::MultipleNonterminalPromotions {
                        item_id: m.item_id.clone(),
                        first: out[i].sequence,
                        second: m.sequence,
                    },
                );
            }
            i = i + 1;
        }
        match store.find(m.item_id.as_str()) {
            Some(k) => {
                out.push(
                    RecoveryPromotionMapping {
                        sequence: m.sequence,
                        item_id: m.item_id.clone(),
                        outgoing_display_id: store.item(k).display_id.clone(),
                        item_class: m.item_class,
                    },
                );
            },
            None => {
                return Err(RecoveryPromotionError::Storage(Fault::NoRow));
            },
        }
        j = j + 1;
    }
    Ok(out)
}

/// The Mutation that must resolve before the given sequence, if there is one.
pub open spec fn earlier_fault(v: StoreView, sequence: int) -> Option<RecoveryFault> {
    let rows = v.mutations.filter(awaited_before(sequence));
    if rows.len() > 0 {
        Some(RecoveryFault::EarlierNonterminal(rows[0].sequence, rows[0].state))
    } else {
        None
    }
}

/// Refuse recovery that would resolve a Promotion ahead of an older Mutation
/// that awaits its outcome.
pub fn ensure_no_earlier_nonterminal(store: &Store, sequence: i64) -> (r: Result<
    (),
    RecoveryPromotionError,
>)
    ensures
        match r {
            Ok(()) => earlier_fault(store@, sequence as int) is None,
            Err(error) => earlier_fault(store@, sequence as int) == Some(error@),
        },
{
    let rows = places(store, &Pick::AwaitedBefore(sequence));
    if rows.len() == 0 {
        return Ok(());
    }
    let first = store.mutation(rows[0]);
    proof {
        assert(picked(store@.mutations, rows@)[0] == first@);
    }
    Err(
        RecoveryPromotionError::EarlierNonterminal { sequence: first.sequence, state: first.state },
    )
}

/// Whether an Item other than the given one holds the Backend identity or is
/// named by its Display ID.
pub open spec fn identity_claimed(
    v: StoreView,
    id: Seq<char>,
    kind: Seq<char>,
    backend_key: Seq<char>,
    display_id: Seq<char>,
) -> bool {
    ||| exists|i: int|
        0 <= i < v.items.len() && (#[trigger] v.items[i]).id != id && v.items[i].backend_kind
            == Some(kind) && v.items[i].backend_key == Some(backend_key)
    ||| exists|other: Seq<char>| other != id && #[trigger] v.names(display_id, other)
}

/// Refuse a confirmed Backend identity that another Item already holds.
fn ensure_identity_unclaimed(
    store: &Store,
    item_id: &str,
    backend_kind: BackendKind,
    identity: &BackendItemIdentity,
) -> (r: Result<(), RecoveryPromotionError>)
    ensures
        match r {
            Ok(()) => !identity_claimed(
                store@,
                item_id@,
                backend_kind.name(),
                identity.backend_key@,
                identity.display_id@,
            ),
            Err(error) => {
                &&& identity_claimed(
                    store@,
                    item_id@,
                    backend_kind.name(),
                    identity.backend_key@,
                    identity.display_id@,
                )
                &&& error@ == RecoveryFault::BackendIdentityTaken(identity.display_id@)
            },
        },
{
    let kind = backend_kind.text();
    let mut i: usize = 0;
    while i < store.item_count()
        invariant
            0 <= i <= store@.items.len(),
            kind@ == backend_kind.name(),
            forall|k: int|
                0 <= k < i ==> !((#[trigger] store@.items[k]).id != item_id@
                    && store@.items[k].backend_kind == Some(kind@) && store@.items[k].backend_key
                    == Some(identity.backend_key@)),
            forall|k: int|
                0 <= k < i && (#[trigger] store@.items[k]).id != item_id@ ==> folded(
                    store@.items[k].display_id,
                ) != folded(identity.display_id@),
        decreases store@.items.len() - i,
    {
        let item = store.item(i);
        if !same_text(item.id.as_str(), item_id) {
            if text_is(&item.backend_kind, kind) && text_is(
                &item.backend_key,
                identity.backend_key.as_str(),
            ) {
                proof {
                    assert(store@.items[i as int].id != item_id@);
                }
                return Err(
                    RecoveryPromotionError::BackendIdentityTaken {
                        display_id: identity.display_id.clone(),
                    },
                );
            }
            if same_folded(item.display_id.as_str(), identity.display_id.as_str()) {
                proof {
                    assert(store@.items[i as int].id == item.id@);
                    assert(store@.names(identity.display_id@, item.id@));
                }
                return Err(
                    RecoveryPromotionError::BackendIdentityTaken {
                        display_id: identity.display_id.clone(),
                    },
                );
            }
        }
        i = i + 1;
    }
    let mut j: usize = 0;
    while j < store.alias_count()
        invariant
            0 <= j <= store@.aliases.len(),
            forall|k: int|
                0 <= k < j && (#[trigger] store@.aliases[k]).item_id != item_id@ ==> folded(
                    store@.aliases[k].value,
                ) != folded(identity.display_id@),
        decreases store@.aliases.len() - j,
    {
        let alias = store.alias(j);
        if !same_text(alias.item_id.as_str(), item_id) && same_folded(
            alias.value.as_str(),
            identity.display_id.as_str(),
        ) {
            proof {
                assert(store@.aliases[j as int].item_id == alias.item_id@);
                assert(store@.names(identity.display_id@, alias.item_id@));
            }
            return Err(
                RecoveryPromotionError::BackendIdentityTaken {
                    display_id: identity.display_id.clone(),
                },
            );
        }
        j = j + 1;
    }
    Ok(())
}

/// What convergence asks the outbox to append: the Item's current title and
/// body, in the Promotion's own operation.
pub open spec fn convergence_request(
    v: StoreView,
    current: RecoveryView,
    now: Seq<char>,
) -> AppendView {
    AppendView {
        mutation_type: current.item_class.update_type(),
        item_id: current.item_id,
        item_class: current.item_class,
        payload: json_object(
            title_body_pairs(v.item(current.item_id).title, v.item(current.item_id).body),
        ),
        operation: Some(current.operation_id),
        now,
    }
}

/// Why a confirmed identity may not be reconciled into the Promotion, if it
/// may not.
pub open spec fn reconcile_refusal(
    v: StoreView,
    current: RecoveryView,
    sequence: int,
    backend_key: Seq<char>,
    display_id: Seq<char>,
) -> Option<RecoveryFault> {
    let id = current.item_id;
    if current.sequence != sequence {
        Some(RecoveryFault::NoRecoverablePromotion(id))
    } else if v.item(id).origin != Origin::Local {
        Some(RecoveryFault::TargetNotLocal(sequence))
    } else if v.remote_kind != Some(current.backend_kind) {
        Some(RecoveryFault::RemoteChanged(current.backend_kind, v.remote_kind))
    } else if retained_elsewhere(v, current.backend_kind) is Some {
        Some(
            RecoveryFault::BackendCohort(
                BackendCohortError::BackendKindMismatch {
                    expected: current.backend_kind,
                    retained: retained_elsewhere(v, current.backend_kind)->0,
                },
            ),
        )
    } else if earlier_fault(v, current.sequence) is Some {
        earlier_fault(v, current.sequence)
    } else if identity_claimed(v, id, current.backend_kind.name(), backend_key, display_id) {
        Some(RecoveryFault::BackendIdentityTaken(display_id))
    } else {
        None
    }
}

/// The store with a confirmed identity reconciled into the Promotion: the Item
/// on the Backend, an update queued where convergence is forced, the Promotion
/// applied and the Sync Cursor moved along; or why it is not.
pub open spec fn reconciled(
    v: StoreView,
    id: Seq<char>,
    sequence: int,
    backend_key: Seq<char>,
    display_id: Seq<char>,
    force_convergence: bool,
    now: Seq<char>,
) -> Result<StoreView, RecoveryFault> {
    match recoverable(v, id) {
        Err(fault) => Err(fault),
        Ok(current) => match reconcile_refusal(v, current, sequence, backend_key, display_id) {
            Some(fault) => Err(fault),
            None => match receipt_applied(
                v,
                id,
                current.backend_kind.name(),
                backend_key,
                display_id,
                now,
            ) {
                Err(fault) => Err(RecoveryFault::Receipt(fault)),
                Ok(backed) => {
                    let converged: Result<StoreView, AppendError> = if force_convergence {
                        appended(backed, convergence_request(v, current, now))
                    } else {
                        Ok(backed)
                    };
                    match converged {
                        Err(error) => Err(RecoveryFault::Append(error)),
                        Ok(queued) => match applied(
                            queued,
                            current.sequence as i64,
                            current.state,
                            now,
                        ) {
                            Err(error) => Err(transition_fault(error)),
                            Ok(after) => Ok(after),
                        },
                    }
                },
            },
        },
    }
}

/// Reconcile a confirmed Backend identity into the store.
///
/// Refuses unless the Promotion is still the one `target` named, its Item is
/// still Local, the Remote and the Backend of what the store retains still
/// match, no earlier Mutation awaits its outcome, and no other Item holds the
/// identity. A refusal changes nothing. `force_convergence` also queues an
/// update with the Item's current title and body.
pub fn reconcile_promotion(
    store: &mut Store,
    target: &RecoveryPromotion,
    identity: &BackendItemIdentity,
    force_convergence: bool,
    now: &str,
) -> (r: Result<(), RecoveryPromotionError>)
    requires
        old(store).wf(),
    ensures
        final(store).wf(),
        match r {
            Ok(()) => reconciled(
                old(store)@,
                target.item_id@,
                target.sequence as int,
                identity.backend_key@,
                identity.display_id@,
                force_convergence,
                now@,
            ) == Ok::<StoreView, RecoveryFault>(final(store)@),
            Err(error) => {
                &&& reconciled(
                    old(store)@,
                    target.item_id@,
                    target.sequence as int,
                    identity.backend_key@,
                    identity.display_id@,
                    force_convergence,
                    now@,
                ) == Err::<StoreView, RecoveryFault>(error@)
                &&& final(store)@ == old(store)@
            },
        },
{
    let current = match recoverable_promotion(store, target.item_id.as_str()) {
        Ok(current) => current,
        Err(error) => {
            return Err(error);
        },
    };
    if current.sequence != target.sequence {
        return Err(RecoveryPromotionError::NoRecoverablePromotion(target.item_id.clone()));
    }
    let i: usize = match store.find(target.item_id.as_str()) {
        Some(i) => i,
        None => {
            return Err(RecoveryPromotionError::Storage(Fault::NoRow));
        },
    };
    if store.item(i).origin != Origin::Local {
        return Err(RecoveryPromotionError::TargetNotLocal { sequence: target.sequence });
    }
    let title = store.item(i).title.clone();
    let body = store.item(i).body.clone();
    let actual = configured_remote_kind(store);
    let same = match actual {
        Some(kind) => kind == current.backend_kind,
        None => false,
    };
    if !same {
        return Err(
            RecoveryPromotionError::RemoteChanged { expected: current.backend_kind, actual },
        );
    }
    match ensure_backend_cohort(store, current.backend_kind) {
        Ok(()) => {},
        Err(error) => {
            return Err(RecoveryPromotionError::BackendCohort(error));
        },
    }
    match ensure_no_earlier_nonterminal(store, current.sequence) {
        Ok(()) => {},
        Err(error) => {
            return Err(error);
        },
    }
    match ensure_identity_unclaimed(
        store,
        target.item_id.as_str(),
        current.backend_kind,
        identity,
    ) {
        Ok(()) => {},
        Err(error) => {
            return Err(error);
        },
    }
    let mut work = store.copy();
    match apply_receipt(
        &mut work,
        target.item_id.as_str(),
        current.backend_kind.text(),
        identity,
        now,
    ) {
        Ok(()) => {},
        Err(error) => {
            return Err(RecoveryPromotionError::Receipt(error));
        },
    }
    if force_convergence {
        let payload = MutationPayload::UpdateTitleBody(TitleBody { title, body });
        match append(
            &mut work,
            AppendRequest {
                mutation_type: current.item_class.update_mutation_type(),
                item_id: current.item_id.as_str(),
                item_class: current.item_class,
                payload: &payload,
                promotion_operation_id: Some(current.operation_id.as_str()),
                now_iso: now,
            },
        ) {
            Ok(_) => {},
            Err(error) => {
                return Err(RecoveryPromotionError::Append(error));
            },
        }
    }
    match mark_applied(&mut work, current.sequence, current.state, now) {
        Ok(()) => {},
        Err(error) => {
            return Err(from_transition(error));
        },
    }
    *store = work;
    Ok(())
}

/// The store with an unobserved Promotion back to pending, or why it is not.
pub open spec fn retried(
    v: StoreView,
    id: Seq<char>,
    sequence: int,
    now: Seq<char>,
) -> Result<StoreView, RecoveryFault> {
    match recoverable(v, id) {
        Err(fault) => Err(fault),
        Ok(current) => if current.sequence != sequence {
            Err(RecoveryFault::NoRecoverablePromotion(id))
        } else {
            match earlier_fault(v, current.sequence) {
                Some(fault) => Err(fault),
                None => match current.state {
                    MutationState::Applying => match transitioned(
                        v,
                        current.sequence as i64,
                        MutationState::Applying,
                        MutationState::Pending,
                        None,
                        now,
                    ) {
                        Err(error) => Err(transition_fault(error)),
                        Ok(after) => Ok(after),
                    },
                    MutationState::Pending => Ok(v),
                    state => Err(RecoveryFault::RetryNotApplying(current.sequence, state)),
                },
            }
        },
    }
}

/// Return an unobserved Promotion to pending so that it is attempted again.
///
/// A Promotion that is pending already stays so. Retrying never records an
/// identity or moves the Sync Cursor.
pub fn retry_promotion(store: &mut Store, target: &RecoveryPromotion, now: &str) -> (r: Result<
    (),
    RecoveryPromotionError,
>)
    requires
        old(store).wf(),
    ensures
        final(store).wf(),
        match r {
            Ok(()) => retried(old(store)@, target.item_id@, target.sequence as int, now@) == Ok::<
                StoreView,
                RecoveryFault,
            >(final(store)@),
            Err(error) => {
                &&& retried(old(store)@, target.item_id@, target.sequence as int, now@) == Err::<
                    StoreView,
                    RecoveryFault,
                >(error@)
                &&& final(store)@ == old(store)@
            },
        },
{
    let current = match recoverable_promotion(store, target.item_id.as_str()) {
        Ok(current) => current,
        Err(error) => {
            return Err(error);
        },
    };
    if current.sequence != target.sequence {
        return Err(RecoveryPromotionError::NoRecoverablePromotion(target.item_id.clone()));
    }
    match ensure_no_earlier_nonterminal(store, current.sequence) {
        Ok(()) => {},
        Err(error) => {
            return Err(error);
        },
    }
    match current.state {
        MutationState::Applying => {
            match transition(
                store,
                TransitionRequest {
                    sequence: current.sequence,
                    from: MutationState::Applying,
                    to: MutationState::Pending,
                    failure: None,
                    now,
                },
            ) {
                Ok(()) => Ok(()),
                Err(error) => Err(from_transition(error)),
            }
        },
        MutationState::Pending => Ok(()),
        state => Err(
            RecoveryPromotionError::RetryNotApplying { sequence: current.sequence, state },
        ),
    }
}

} // verus!
