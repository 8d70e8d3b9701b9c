//! The log of Mutations: what is queued, how it moves to its end, and which
//! Backend an Item is bound for.

use vstd::prelude::*;

use crate::domain::{
    classified, BackendKind, BindingView, DependencyClassification, DependencyRejection, ItemClass,
    MutationState, MutationType, Origin,
};
use crate::laws::facts::{
    being_promoted, lemma_first_selected, lemma_log_grew, lemma_none_selected, lemma_row, log_grew,
    log_open, makes_object, unsettled,
};
use crate::mutations::{
    appended, applied, awaited_promotion_of, binding, lemma_place_of, place_of, transitioned,
    AppendError, AppendView, BindingFault, IllegalTransition, TransitionError,
};
use crate::payload::promotion_in;
use crate::rows::MutationView;
use crate::sync::{item_elsewhere, promotion_elsewhere, retained_elsewhere};
use crate::tables::{keys, Fault, StoreView};

verus! {

/// Whether an Item of the class has the ID.
pub open spec fn is_of_class(v: StoreView, id: Seq<char>, class: ItemClass) -> bool {
    exists|i: int|
        0 <= i < v.items.len() && (#[trigger] v.items[i]).id == id && v.items[i].item_class == class
}

pub proof fn lemma_of_class(v: StoreView, id: Seq<char>, class: ItemClass)
    ensures
        keys(v.items).contains((id, class)) == is_of_class(v, id, class),
{
    if keys(v.items).contains((id, class)) {
        let i = choose|i: int| 0 <= i < keys(v.items).len() && keys(v.items)[i] == (id, class);
        assert(v.items[i].id == id);
    }
    if is_of_class(v, id, class) {
        let i = choose|i: int|
            0 <= i < v.items.len() && (#[trigger] v.items[i]).id == id && v.items[i].item_class
                == class;
        assert(keys(v.items)[i] == (id, class));
    }
}

/// A Mutation is appended as it was asked for: pending, with nothing recorded
/// against it, under the sequence after the last. Nothing else changes.
pub proof fn law_an_appended_mutation_waits(v: StoreView, request: AppendView)
    requires
        v.wf(),
        appended(v, request) is Ok,
    ensures
        ({
            let after = appended(v, request)->Ok_0;
            let row = MutationView {
                sequence: v.mutation_seq->0 + 1,
                mutation_type: request.mutation_type,
                item_id: request.item_id,
                item_class: request.item_class,
                payload_json: request.payload,
                state: MutationState::Pending,
                failure_json: None,
                created_at: request.now,
                state_changed_at: request.now,
                promotion_operation_id: request.operation,
            };
            &&& log_grew(v, after, row)
            &&& after == StoreView {
                mutations: after.mutations,
                mutation_seq: after.mutation_seq,
                ..v
            }
        }),
{
    lemma_log_grew(v, request);
}

/// A Mutation is appended exactly where the log is open and its Item exists in
/// its class.
pub proof fn law_when_a_mutation_is_appended(v: StoreView, request: AppendView)
    ensures
        (appended(v, request) is Ok) == (log_open(v) && is_of_class(
            v,
            request.item_id,
            request.item_class,
        )),
        v.mutation_seq is None ==> appended(v, request) is Err && appended(v, request)->Err_0 is Sequence,
        log_open(v) && !is_of_class(v, request.item_id, request.item_class) ==> appended(v, request)
            == Err::<StoreView, AppendError>(AppendError::Sqlite(Fault::ForeignKey)),
{
    lemma_of_class(v, request.item_id, request.item_class);
    if v.mutation_seq is Some && v.mutation_seq->0 != i64::MAX {
        let next = v.mutation_seq->0 + 1;
        assert(log_open(v) == !v.has_mutation(next));
    }
}

/// Whether a Mutation may go from one state to another at all. What came to its
/// end stays there; only an attempt under way can go back to waiting or be
/// abandoned; only what failed can be skipped; and an attempt under way is not
/// cancelled.
pub open spec fn may_go(from: MutationState, to: MutationState) -> bool {
    &&& unsettled(from)
    &&& to == MutationState::Pending ==> from == MutationState::Applying
    &&& to == MutationState::Abandoned ==> from == MutationState::Applying
    &&& to == MutationState::Skipped ==> from == MutationState::Failed
    &&& to == MutationState::Cancelled ==> from != MutationState::Applying
}

/// Whether the move has to say what went wrong.
pub open spec fn needs_evidence(from: MutationState, to: MutationState) -> bool {
    to == MutationState::Failed || (from == MutationState::Applying && to
        == MutationState::Applying)
}

/// Whether the move lets what was recorded before stand.
pub open spec fn keeps_evidence(to: MutationState) -> bool {
    to == MutationState::Skipped || to == MutationState::Cancelled || to == MutationState::Abandoned
}

/// Whether a Mutation of the kind can be in the state: only a Promotion of its
/// own class is tried or abandoned, and no Promotion is skipped.
pub open spec fn may_be(m: MutationView, state: MutationState) -> bool {
    &&& state == MutationState::Applying || state == MutationState::Abandoned ==> (m.mutation_type
        == MutationType::PromoteTicket && m.item_class == ItemClass::Ticket) || (m.mutation_type
        == MutationType::PromoteEpic && m.item_class == ItemClass::Epic)
    &&& state == MutationState::Skipped ==> !makes_object(m.mutation_type)
}

/// A move is refused in three ways and in no others: the Mutation is not there
/// in the named state or may not go there, the evidence is missing, or a
/// Mutation of its kind cannot be in the state.
pub proof fn law_which_moves_are_refused(
    v: StoreView,
    sequence: i64,
    from: MutationState,
    to: MutationState,
    failure: Option<Seq<char>>,
    now: Seq<char>,
    i: int,
)
    requires
        v.wf(),
        0 <= i < v.mutations.len(),
        v.mutations[i].sequence == sequence,
    ensures
        ({
            let r = transitioned(v, sequence, from, to, failure, now);
            let illegal = TransitionError::Illegal(IllegalTransition::Edge { sequence, from, to });
            let missing = TransitionError::Illegal(
                IllegalTransition::MissingEvidence { sequence, to },
            );
            &&& r is Ok <==> {
                &&& may_go(from, to)
                &&& v.mutations[i].state == from
                &&& needs_evidence(from, to) ==> failure is Some
                &&& may_be(v.mutations[i], to)
            }
            &&& r == Err::<StoreView, TransitionError>(missing) <==> may_go(from, to)
                && needs_evidence(from, to) && failure is None
            &&& r == Err::<StoreView, TransitionError>(illegal) <==> !may_go(from, to) || (!(
            needs_evidence(from, to) && failure is None) && v.mutations[i].state != from)
        }),
{
    lemma_place_of(v, i);
}

/// A Mutation that moved is in the new state since now. What went wrong is
/// recorded, kept or forgotten as the move asks. Everything else of it, every
/// other Mutation and the rest of the store are as they were.
pub proof fn law_what_a_move_writes(
    v: StoreView,
    sequence: i64,
    from: MutationState,
    to: MutationState,
    failure: Option<Seq<char>>,
    now: Seq<char>,
    i: int,
)
    requires
        v.wf(),
        0 <= i < v.mutations.len(),
        transitioned(v, sequence, from, to, failure, now) is Ok,
    ensures
        ({
            let after = transitioned(v, sequence, from, to, failure, now)->Ok_0;
            let m = v.mutations[i];
            &&& after == StoreView { mutations: after.mutations, ..v }
            &&& after.mutations.len() == v.mutations.len()
            &&& m.sequence != sequence ==> after.mutations[i] == m
            &&& m.sequence == sequence ==> m.state == from && after.mutations[i] == MutationView {
                state: to,
                state_changed_at: now,
                failure_json: if keeps_evidence(to) {
                    m.failure_json
                } else if needs_evidence(from, to) {
                    failure
                } else {
                    None
                },
                ..m
            }
        }),
{
    let k = place_of(v.mutations, sequence as int);
    if v.mutations[i].sequence == sequence {
        lemma_place_of(v, i);
    }
    assert(v.has_mutation(sequence as int));
    let w = choose|w: int| 0 <= w < v.mutations.len() && (#[trigger] v.mutations[w]).sequence == sequence;
    lemma_place_of(v, w);
}

/// A sequence that no Mutation has is refused, whatever is asked.
pub proof fn law_an_unknown_sequence_does_not_move(
    v: StoreView,
    sequence: i64,
    from: MutationState,
    to: MutationState,
    failure: Option<Seq<char>>,
    now: Seq<char>,
)
    requires
        forall|i: int| 0 <= i < v.mutations.len() ==> (#[trigger] v.mutations[i]).sequence != sequence,
    ensures
        transitioned(v, sequence, from, to, failure, now) is Err,
{
}

/// Marking a Mutation applied moves it, forgets what went wrong, and takes the
/// Sync Cursor up to it, never back. It is refused exactly where the move is.
pub proof fn law_what_applying_writes(
    v: StoreView,
    sequence: i64,
    from: MutationState,
    now: Seq<char>,
    i: int,
)
    requires
        v.wf(),
        0 <= i < v.mutations.len(),
        v.mutations[i].sequence == sequence,
    ensures
        (applied(v, sequence, from, now) is Ok) == (unsettled(from) && v.mutations[i].state == from),
        applied(v, sequence, from, now) is Ok ==> ({
            let after = applied(v, sequence, from, now)->Ok_0;
            &&& after == StoreView { mutations: after.mutations, cursor: after.cursor, ..v }
            &&& after.mutations.len() == v.mutations.len()
            &&& after.mutations[i] == MutationView {
                state: MutationState::Applied,
                state_changed_at: now,
                failure_json: None,
                ..v.mutations[i]
            }
            &&& forall|k: int|
                0 <= k < v.mutations.len() && k != i ==> #[trigger] after.mutations[k]
                    == v.mutations[k]
            &&& v.cursor is None ==> after.cursor is None
            &&& v.cursor is Some ==> after.cursor is Some && after.cursor->0.updated_at == now
                && after.cursor->0.last_applied_sequence >= sequence
                && after.cursor->0.last_applied_sequence >= v.cursor->0.last_applied_sequence && (
            after.cursor->0.last_applied_sequence == sequence
                || after.cursor->0.last_applied_sequence == v.cursor->0.last_applied_sequence)
        }),
{
    lemma_place_of(v, i);
}

/// Whether the Mutation is the earliest unsettled Promotion of the Item.
pub open spec fn promoted_first(v: StoreView, id: Seq<char>, i: int) -> bool {
    &&& 0 <= i < v.mutations.len()
    &&& v.mutations[i].item_id == id
    &&& makes_object(v.mutations[i].mutation_type)
    &&& unsettled(v.mutations[i].state)
    &&& forall|j: int|
        0 <= j < i && (#[trigger] v.mutations[j]).item_id == id && makes_object(
            v.mutations[j].mutation_type,
        ) ==> !unsettled(v.mutations[j].state)
}

/// The Backend that a Promotion with the payload is for.
pub open spec fn meant_by(payload: Seq<char>) -> Result<BindingView, BindingFault> {
    match promotion_in(payload) {
        Some(promotion) => Ok(BindingView::PendingPromotion(promotion.backend_kind)),
        None => Err(BindingFault::Payload),
    }
}

proof fn lemma_promoted_first(v: StoreView, id: Seq<char>) -> (i: int)
    requires
        v.mutations.filter(awaited_promotion_of(id)).len() > 0,
    ensures
        promoted_first(v, id, i),
        v.mutations.filter(awaited_promotion_of(id))[0] == v.mutations[i],
{
    let cond = awaited_promotion_of(id);
    let i = lemma_first_selected(v.mutations, cond);
    assert forall|j: int|
        0 <= j < i && (#[trigger] v.mutations[j]).item_id == id && makes_object(
            v.mutations[j].mutation_type,
        ) implies !unsettled(v.mutations[j].state) by {
        assert(!cond(v.mutations[j]));
    }
    i
}

/// An Item that stands on a Backend is bound for that one, whatever is queued.
/// A Local Item is bound for the Backend that its earliest unsettled Promotion
/// was committed for, and for none without such a Promotion.
pub proof fn law_where_an_item_is_bound(v: StoreView, id: Seq<char>)
    requires
        v.wf(),
        v.has(id),
    ensures
        v.item(id).origin == Origin::Backend ==> binding(v, id) == Ok::<BindingView, BindingFault>(
            BindingView::Backend(v.item(id).backend_kind->0),
        ),
        v.item(id).origin == Origin::Local && !being_promoted(v, id) ==> binding(v, id) == Ok::<
            BindingView,
            BindingFault,
        >(BindingView::Local),
        v.item(id).origin == Origin::Local && being_promoted(v, id) ==> exists|i: int| #[trigger]
            promoted_first(v, id, i) && binding(v, id) == meant_by(v.mutations[i].payload_json),
{
    lemma_row(v, id);
    assert(v.item(id).admitted());
    let cond = awaited_promotion_of(id);
    lemma_none_selected(v.mutations, cond);
    if being_promoted(v, id) {
        let k = choose|i: int|
            0 <= i < v.mutations.len() && (#[trigger] v.mutations[i]).item_id == id && makes_object(
                v.mutations[i].mutation_type,
            ) && unsettled(v.mutations[i].state);
        assert(cond(v.mutations[k]));
        let i = lemma_promoted_first(v, id);
        assert(promoted_first(v, id, i));
    } else {
        assert forall|i: int| 0 <= i < v.mutations.len() implies !cond(
            #[trigger] v.mutations[i],
        ) by {}
    }
}

/// A Dependency is the Backend's business where both ends are bound for one
/// and the same, and the store's own where the blocked end is Local. It cannot
/// be where a bound Item would wait for a Local one, or two Backends meet.
pub proof fn law_what_a_dependency_means(blocked: BindingView, blocking: BindingView)
    ensures
        blocked == BindingView::Local ==> classified(blocked, blocking)
            == DependencyClassification::LocalOnly,
        blocked != BindingView::Local && blocking == BindingView::Local ==> classified(
            blocked,
            blocking,
        ) == DependencyClassification::Rejected(DependencyRejection::BackendBlockedLocalBlocking),
        forall|a: Seq<char>, b: Seq<char>|
            (blocked == BindingView::Backend(a) || blocked == BindingView::PendingPromotion(a)) && (
            blocking == BindingView::Backend(b) || blocking == BindingView::PendingPromotion(b))
                ==> #[trigger] meets(a, b, classified(blocked, blocking)),
{
}

/// Whether that is what a Dependency between Items of the two Backends means.
pub open spec fn meets(
    blocked: Seq<char>,
    blocking: Seq<char>,
    meaning: DependencyClassification,
) -> bool {
    if blocked == blocking {
        meaning == DependencyClassification::BecomesBackendIntent
    } else {
        meaning == DependencyClassification::Rejected(DependencyRejection::BackendKindMismatch)
    }
}

/// Whether the name is that of the Backend.
pub open spec fn is_called(name: Seq<char>, kind: BackendKind) -> bool {
    match kind {
        BackendKind::Github => name == "github"@,
        BackendKind::Jira => name == "jira"@,
    }
}

/// Whether something of the store is on the Backend or on its way to it.
pub open spec fn is_used(v: StoreView, kind: BackendKind) -> bool {
    ||| exists|i: int|
        0 <= i < v.items.len() && (#[trigger] v.items[i]).origin == Origin::Backend
            && v.items[i].backend_kind is Some && is_called(v.items[i].backend_kind->0, kind)
    ||| exists|i: int|
        0 <= i < v.mutations.len() && makes_object((#[trigger] v.mutations[i]).mutation_type)
            && unsettled(v.mutations[i].state) && promotion_in(v.mutations[i].payload_json) is Some
            && is_called(promotion_in(v.mutations[i].payload_json)->0.backend_kind, kind)
}

/// A Backend is refused exactly where the other one is in use, and the refusal
/// names that one.
pub proof fn law_a_store_keeps_to_one_backend(v: StoreView, expected: BackendKind)
    ensures
        match retained_elsewhere(v, expected) {
            Some(retained) => retained != expected && is_used(v, retained),
            None => forall|kind: BackendKind| kind != expected ==> !#[trigger] is_used(v, kind),
        },
{
    reveal_strlit("github");
    reveal_strlit("jira");
    assert("github"@.len() == 6 && "jira"@.len() == 4);
    let items = item_elsewhere(expected);
    let promotions = promotion_elsewhere(expected);
    lemma_none_selected(v.items, items);
    lemma_none_selected(v.mutations, promotions);
    if v.items.filter(items).len() > 0 {
        let i = lemma_first_selected(v.items, items);
        assert(v.items[i].origin == Origin::Backend);
    } else if v.mutations.filter(promotions).len() > 0 {
        let i = lemma_first_selected(v.mutations, promotions);
        assert(makes_object(v.mutations[i].mutation_type));
    } else {
        assert forall|kind: BackendKind| kind != expected implies !#[trigger] is_used(v, kind) by {
            assert forall|i: int|
                0 <= i < v.items.len() && (#[trigger] v.items[i]).origin == Origin::Backend
                    && v.items[i].backend_kind is Some implies !is_called(
                v.items[i].backend_kind->0,
                kind,
            ) by {
                assert(!items(v.items[i]));
            }
            assert forall|i: int|
                0 <= i < v.mutations.len() && makes_object((#[trigger] v.mutations[i]).mutation_type)
                    && unsettled(v.mutations[i].state) && promotion_in(
                    v.mutations[i].payload_json,
                ) is Some implies !is_called(
                promotion_in(v.mutations[i].payload_json)->0.backend_kind,
                kind,
            ) by {
                assert(!promotions(v.mutations[i]));
            }
        }
    }
}

} // verus!
