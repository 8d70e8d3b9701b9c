//! The outbox of changes meant for the Backend.
//!
//! A Mutation is appended in the `pending` state. [`transition`] is the only
//! writer of its state from then on, and [`mark_applied`] advances the Sync
//! Cursor together with it. [`resolve_backend_binding`] answers what the
//! outbox defines: whether a Local Item awaits a Promotion.

use vstd::prelude::*;

use crate::domain::{
    BackendBinding, BackendKind, BindingView, ItemClass, MutationState, MutationType, Origin,
};
use crate::keep::lemma_put_mutation;
use crate::load::{mutation_fault, with_mutation};
use crate::payload::{
    addressed_counterpart_id, counterpart_in, json_object, promotion_in, read_promotion,
    MalformedPayload, MutationPayload,
};
use crate::rows::{copy_text, opt_str, opt_text, own_text, text_is, Mutation, MutationView, SyncCursor, SyncCursorView};
use crate::select::{
    in_table, lemma_filter_all, lemma_filter_none, lemma_filter_step, picked,
};
use crate::sequences::{next_of, peek, SequenceError};
use crate::tables::{Counter, Fault, Store, StoreView};
use crate::text::same_text;

verus! {

/// Why a Mutation was not appended.
#[derive(Debug)]
pub enum AppendError {
    /// The store does not admit the Mutation.
    Sqlite(Fault),
    /// The Mutation Sequence gave no value.
    Sequence(SequenceError),
}

/// Input for [`append`].
pub struct AppendRequest<'a> {
    pub mutation_type: MutationType,
    pub item_id: &'a str,
    pub item_class: ItemClass,
    pub payload: &'a MutationPayload,
    /// The Promotion Operation that groups the Mutations of one request.
    /// `None` for a Mutation that stands on its own.
    pub promotion_operation_id: Option<&'a str>,
    pub now_iso: &'a str,
}

/// The model of [`AppendRequest`].
#[verifier::ext_equal]
pub struct AppendView {
    pub mutation_type: MutationType,
    pub item_id: Seq<char>,
    pub item_class: ItemClass,
    pub payload: Seq<char>,
    pub operation: Option<Seq<char>>,
    pub now: Seq<char>,
}

impl<'a> View for AppendRequest<'a> {
    type V = AppendView;

    open spec fn view(&self) -> AppendView {
        AppendView {
            mutation_type: self.mutation_type,
            item_id: self.item_id@,
            item_class: self.item_class,
            payload: json_object(self.payload.pairs()),
            operation: opt_str(self.promotion_operation_id),
            now: self.now_iso@,
        }
    }
}

/// The row that a request appends under a sequence.
pub open spec fn pending_row(request: AppendView, sequence: int) -> MutationView {
    MutationView {
        sequence,
        mutation_type: request.mutation_type,
        item_id: request.item_id,
        item_class: request.item_class,
        payload_json: request.payload,
        state: MutationState::Pending,
        failure_json: None,
        created_at: request.now,
        state_changed_at: request.now,
        promotion_operation_id: request.operation,
    }
}

/// The store with a request appended, or why it is not.
pub open spec fn appended(v: StoreView, request: AppendView) -> Result<StoreView, AppendError> {
    match next_of(v, Counter::Mutation) {
        Err(error) => Err(AppendError::Sequence(error)),
        Ok(sequence) => match mutation_fault(v, pending_row(request, sequence)) {
            Some(fault) => Err(AppendError::Sqlite(fault)),
            None => Ok(
                with_mutation(v, pending_row(request, sequence)).with_counter(
                    Counter::Mutation,
                    Some(sequence),
                ),
            ),
        },
    }
}

/// Append one Mutation to the outbox.
///
/// Returns the freshly allocated Mutation Sequence.
pub fn append(store: &mut Store, req: AppendRequest<'_>) -> (r: Result<i64, AppendError>)
    requires
        old(store).wf(),
    ensures
        final(store).wf(),
        match r {
            Ok(sequence) => {
                &&& appended(old(store)@, req@) == Ok::<StoreView, AppendError>(final(store)@)
                &&& next_of(old(store)@, Counter::Mutation) == Ok::<int, SequenceError>(
                    sequence as int,
                )
            },
            Err(error) => {
                &&& appended(old(store)@, req@) == Err::<StoreView, AppendError>(error)
                &&& final(store)@ == old(store)@
            },
        },
{
    let sequence: i64 = match peek(store, Counter::Mutation) {
        Ok(sequence) => sequence,
        Err(error) => {
            return Err(AppendError::Sequence(error));
        },
    };
    let row = Mutation {
        sequence,
        mutation_type: req.mutation_type,
        item_id: req.item_id.to_owned(),
        item_class: req.item_class,
        payload_json: req.payload.to_json_string(),
        state: MutationState::Pending,
        failure_json: None,
        created_at: req.now_iso.to_owned(),
        state_changed_at: req.now_iso.to_owned(),
        promotion_operation_id: own_text(req.promotion_operation_id),
    };
    proof {
        assert(row@ == pending_row(req@, sequence as int));
    }
    match store.insert_mutation(row) {
        Ok(()) => {
            store.set_counter(Counter::Mutation, Some(sequence));
            Ok(sequence)
        },
        Err(fault) => Err(AppendError::Sqlite(fault)),
    }
}

/// One Mutation a withdrawal may take with it.
#[derive(Clone, Debug, PartialEq, Eq)]
pub struct WithdrawalCandidate {
    pub sequence: i64,
    pub state: MutationState,
    pub mutation_type: MutationType,
    pub item_id: String,
    pub promotion_operation_id: Option<String>,
    pub payload_json: String,
}

impl WithdrawalCandidate {
    /// Whether the candidate stands for the Mutation.
    pub open spec fn stands_for(&self, mutation: MutationView) -> bool {
        &&& self.sequence == mutation.sequence
        &&& self.state == mutation.state
        &&& self.mutation_type == mutation.mutation_type
        &&& self.item_id@ == mutation.item_id
        &&& opt_text(self.promotion_operation_id) == mutation.promotion_operation_id
        &&& self.payload_json@ == mutation.payload_json
    }

    /// The Item that the Mutation addresses beyond its own target.
    pub fn addressed_counterpart_id(&self) -> (r: Result<Option<String>, MalformedPayload>)
        ensures
            match r {
                Ok(Some(id)) => counterpart_in(self.mutation_type, self.payload_json@) == Some(
                    Some(id@),
                ),
                Ok(None) => counterpart_in(self.mutation_type, self.payload_json@) == Some(
                    None::<Seq<char>>,
                ),
                Err(_) => counterpart_in(self.mutation_type, self.payload_json@) is None,
            },
    {
        addressed_counterpart_id(self.mutation_type, self.payload_json.as_str())
    }
}

/// Whether a withdrawal may take the Mutation: one that awaits its first or
/// another attempt and creates nothing on the Backend.
pub open spec fn withdrawable() -> spec_fn(MutationView) -> bool {
    |m: MutationView|
        (m.state == MutationState::Pending || m.state == MutationState::Failed)
            && !m.mutation_type.promotes()
}

/// Whether a Mutation is a Promotion of the Item.
pub open spec fn promotion_of(id: Seq<char>) -> spec_fn(MutationView) -> bool {
    |m: MutationView| m.item_id == id && m.mutation_type.promotes()
}

/// Whether a Mutation is a Promotion of the Item that awaits its outcome.
pub open spec fn awaited_promotion_of(id: Seq<char>) -> spec_fn(MutationView) -> bool {
    |m: MutationView| m.item_id == id && m.mutation_type.promotes() && m.state.is_nonterminal()
}

/// Whether a Mutation is a Promotion of the Item that was abandoned.
pub open spec fn abandoned_promotion_of(id: Seq<char>) -> spec_fn(MutationView) -> bool {
    |m: MutationView|
        m.item_id == id && m.mutation_type.promotes() && m.state == MutationState::Abandoned
}

/// Whether a Mutation is a Promotion that awaits its outcome.
pub open spec fn awaited_promotion() -> spec_fn(MutationView) -> bool {
    |m: MutationView| m.mutation_type.promotes() && m.state.is_nonterminal()
}

/// Whether a Mutation awaits its outcome.
pub open spec fn awaited() -> spec_fn(MutationView) -> bool {
    |m: MutationView| m.state.is_nonterminal()
}

/// Whether a Mutation before the sequence awaits its outcome.
pub open spec fn awaited_before(sequence: int) -> spec_fn(MutationView) -> bool {
    |m: MutationView| m.sequence < sequence && m.state.is_nonterminal()
}

/// Whether a Mutation of the Promotion Operation awaits its outcome.
pub open spec fn awaited_in_operation(operation_id: Seq<char>) -> spec_fn(MutationView) -> bool {
    |m: MutationView|
        m.promotion_operation_id == Some(operation_id) && m.state.is_nonterminal()
}

/// Whether a Mutation is a Promotion of the Promotion Operation that nothing
/// was created for.
pub open spec fn untried_in_operation(operation_id: Seq<char>) -> spec_fn(MutationView) -> bool {
    |m: MutationView|
        m.promotion_operation_id == Some(operation_id) && m.mutation_type.promotes() && (m.state
            == MutationState::Pending || m.state == MutationState::Failed)
}

/// Whether a Mutation is a Promotion of the Promotion Operation whose creation
/// was not observed.
pub open spec fn unobserved_in_operation(operation_id: Seq<char>) -> spec_fn(MutationView) -> bool {
    |m: MutationView|
        m.promotion_operation_id == Some(operation_id) && m.mutation_type.promotes() && m.state
            == MutationState::Applying
}

/// Whether a Mutation is a Promotion of the Promotion Operation that the
/// Backend accepted.
pub open spec fn applied_in_operation(operation_id: Seq<char>) -> spec_fn(MutationView) -> bool {
    |m: MutationView|
        m.promotion_operation_id == Some(operation_id) && m.mutation_type.promotes() && m.state
            == MutationState::Applied
}

/// A condition on Mutations.
pub enum Pick<'a> {
    Withdrawable,
    PromotionOf(&'a str),
    AwaitedPromotionOf(&'a str),
    AbandonedPromotionOf(&'a str),
    AwaitedPromotion,
    Awaited,
    AwaitedBefore(i64),
    UntriedInOperation(&'a str),
    UnobservedInOperation(&'a str),
    AppliedInOperation(&'a str),
    AwaitedInOperation(&'a str),
}

impl<'a> Pick<'a> {
    /// The condition itself.
    pub open spec fn cond(&self) -> spec_fn(MutationView) -> bool {
        match self {
            Pick::Withdrawable => withdrawable(),
            Pick::PromotionOf(id) => promotion_of(id@),
            Pick::AwaitedPromotionOf(id) => awaited_promotion_of(id@),
            Pick::AbandonedPromotionOf(id) => abandoned_promotion_of(id@),
            Pick::AwaitedPromotion => awaited_promotion(),
            Pick::Awaited => awaited(),
            Pick::AwaitedBefore(sequence) => awaited_before(*sequence as int),
            Pick::UntriedInOperation(id) => untried_in_operation(id@),
            Pick::UnobservedInOperation(id) => unobserved_in_operation(id@),
            Pick::AppliedInOperation(id) => applied_in_operation(id@),
            Pick::AwaitedInOperation(id) => awaited_in_operation(id@),
        }
    }

    fn holds(&self, m: &Mutation) -> (r: bool)
        ensures
            r == (self.cond())(m@),
    {
        match self {
            Pick::Withdrawable => {
                let waiting = match m.state {
                    MutationState::Pending | MutationState::Failed => true,
                    _ => false,
                };
                waiting && !m.mutation_type.is_promotion()
            },
            Pick::PromotionOf(id) => same_text(m.item_id.as_str(), id)
                && m.mutation_type.is_promotion(),
            Pick::AwaitedPromotionOf(id) => same_text(m.item_id.as_str(), id)
                && m.mutation_type.is_promotion() && m.state.nonterminal(),
            Pick::AbandonedPromotionOf(id) => same_text(m.item_id.as_str(), id)
                && m.mutation_type.is_promotion() && m.state == MutationState::Abandoned,
            Pick::AwaitedPromotion => m.mutation_type.is_promotion() && m.state.nonterminal(),
            Pick::Awaited => m.state.nonterminal(),
            Pick::AwaitedBefore(sequence) => m.sequence < *sequence && m.state.nonterminal(),
            Pick::UntriedInOperation(id) => {
                let untried = match m.state {
                    MutationState::Pending | MutationState::Failed => true,
                    _ => false,
                };
                text_is(&m.promotion_operation_id, id) && m.mutation_type.is_promotion() && untried
            },
            Pick::UnobservedInOperation(id) => text_is(&m.promotion_operation_id, id)
                && m.mutation_type.is_promotion() && m.state == MutationState::Applying,
            Pick::AppliedInOperation(id) => text_is(&m.promotion_operation_id, id)
                && m.mutation_type.is_promotion() && m.state == MutationState::Applied,
            Pick::AwaitedInOperation(id) => text_is(&m.promotion_operation_id, id)
                && m.state.nonterminal(),
        }
    }
}

/// The places of the Mutations that meet a condition, in Mutation Sequence
/// order.
pub(crate) fn places(store: &Store, pick: &Pick<'_>) -> (r: Vec<usize>)
    ensures
        in_table(r@, store@.mutations.len() as int),
        picked(store@.mutations, r@) == store@.mutations.filter(pick.cond()),
        forall|k: int| 0 <= k < r@.len() ==> (pick.cond())(
            store@.mutations[#[trigger] r@[k] as int],
        ),
        forall|k: int, l: int| 0 <= k < l < r@.len() ==> (#[trigger] r@[k]) < (#[trigger] r@[l]),
{
    let mut out: Vec<usize> = Vec::new();
    let mut i: usize = 0;
    let ghost cond = pick.cond();
    proof {
        lemma_filter_none(store@.mutations, cond);
        assert(picked(store@.mutations, out@) =~= Seq::empty());
    }
    while i < store.mutation_count()
        invariant
            0 <= i <= store@.mutations.len(),
            cond == pick.cond(),
            in_table(out@, i as int),
            picked(store@.mutations, out@) == store@.mutations.take(i as int).filter(cond),
            forall|k: int| 0 <= k < out@.len() ==> cond(
                store@.mutations[#[trigger] out@[k] as int],
            ),
            forall|k: int, l: int|
                0 <= k < l < out@.len() ==> (#[trigger] out@[k]) < (#[trigger] out@[l]),
        decreases store@.mutations.len() - i,
    {
        let ghost before = out@;
        proof {
            lemma_filter_step(store@.mutations, cond, i as int);
        }
        if pick.holds(store.mutation(i)) {
            out.push(i);
            proof {
                assert(picked(store@.mutations, out@) =~= picked(store@.mutations, before).push(
                    store@.mutations[i as int],
                ));
            }
        }
        i = i + 1;
    }
    proof {
        lemma_filter_all(store@.mutations, cond);
    }
    out
}

/// Every Mutation a withdrawal may take with it, in Mutation Sequence order.
///
/// Which of these a withdrawal takes is the caller's question.
pub fn withdrawal_candidates(store: &Store) -> (r: Vec<WithdrawalCandidate>)
    ensures
        r@.len() == store@.mutations.filter(withdrawable()).len(),
        forall|i: int|
            0 <= i < r@.len() ==> (#[trigger] r@[i]).stands_for(
                store@.mutations.filter(withdrawable())[i],
            ),
{
    let places = places(store, &Pick::Withdrawable);
    let mut out: Vec<WithdrawalCandidate> = Vec::new();
    let mut i: usize = 0;
    while i < places.len()
        invariant
            0 <= i <= places@.len(),
            out@.len() == i,
            in_table(places@, store@.mutations.len() as int),
            picked(store@.mutations, places@) == store@.mutations.filter(withdrawable()),
            forall|k: int|
                0 <= k < i ==> (#[trigger] out@[k]).stands_for(
                    store@.mutations.filter(withdrawable())[k],
                ),
        decreases places@.len() - i,
    {
        let m = store.mutation(places[i]);
        proof {
            assert(picked(store@.mutations, places@)[i as int] == m@);
        }
        out.push(
            WithdrawalCandidate {
                sequence: m.sequence,
                state: m.state,
                mutation_type: m.mutation_type,
                item_id: m.item_id.clone(),
                promotion_operation_id: copy_text(&m.promotion_operation_id),
                payload_json: m.payload_json.clone(),
            },
        );
        i = i + 1;
    }
    out
}

/// A state change that the transition table refuses.
#[derive(Clone, Copy, Debug, PartialEq, Eq, Structural)]
pub enum IllegalTransition {
    /// The edge is absent from the transition table, or the Mutation was not
    /// in `from`.
    Edge { sequence: i64, from: MutationState, to: MutationState },
    /// The edge records why the attempt failed and the caller did not say.
    MissingEvidence { sequence: i64, to: MutationState },
}

/// Why a Mutation did not change its state.
#[derive(Clone, Copy, Debug, PartialEq, Eq, Structural)]
pub enum TransitionError {
    /// The store does not admit the Mutation in the new state.
    Storage(Fault),
    Illegal(IllegalTransition),
}

/// Input for [`transition`].
pub struct TransitionRequest<'a> {
    pub sequence: i64,
    /// The Mutation's current state, as the caller read it.
    pub from: MutationState,
    pub to: MutationState,
    /// What the Backend answered, as JSON, for the edges that record it.
    pub failure: Option<&'a str>,
    pub now: &'a str,
}

/// What an edge does to a Mutation's failure evidence.
#[derive(Clone, Copy, Debug, PartialEq, Eq, Structural)]
pub enum FailureColumn {
    /// A fresh attempt or a settled effect leaves no evidence behind.
    Clear,
    /// A terminal state that a person chose keeps the evidence.
    Preserve,
    /// The edge records new evidence.
    Record,
}

/// The transition table: the edges between states, each with what it does to
/// the failure evidence.
pub open spec fn edge(from: MutationState, to: MutationState) -> Option<FailureColumn> {
    match (from, to) {
        (MutationState::Applying, MutationState::Pending) => Some(FailureColumn::Clear),
        (MutationState::Pending, MutationState::Failed) => Some(FailureColumn::Record),
        (MutationState::Failed, MutationState::Failed) => Some(FailureColumn::Record),
        (MutationState::Applying, MutationState::Failed) => Some(FailureColumn::Record),
        (MutationState::Pending, MutationState::Applying) => Some(FailureColumn::Clear),
        (MutationState::Failed, MutationState::Applying) => Some(FailureColumn::Clear),
        (MutationState::Applying, MutationState::Applying) => Some(FailureColumn::Record),
        (MutationState::Failed, MutationState::Skipped) => Some(FailureColumn::Preserve),
        (MutationState::Pending, MutationState::Cancelled) => Some(FailureColumn::Preserve),
        (MutationState::Failed, MutationState::Cancelled) => Some(FailureColumn::Preserve),
        (MutationState::Applying, MutationState::Abandoned) => Some(FailureColumn::Preserve),
        (MutationState::Pending, MutationState::Applied) => Some(FailureColumn::Clear),
        (MutationState::Failed, MutationState::Applied) => Some(FailureColumn::Clear),
        (MutationState::Applying, MutationState::Applied) => Some(FailureColumn::Clear),
        _ => None,
    }
}

/// Where the Mutation with the sequence stands.
pub open spec fn place_of(mutations: Seq<MutationView>, sequence: int) -> int {
    choose|i: int| 0 <= i < mutations.len() && (#[trigger] mutations[i]).sequence == sequence
}

/// A Mutation after it went along an edge.
pub open spec fn moved(
    m: MutationView,
    to: MutationState,
    column: FailureColumn,
    failure: Option<Seq<char>>,
    now: Seq<char>,
) -> MutationView {
    MutationView {
        state: to,
        state_changed_at: now,
        failure_json: match column {
            FailureColumn::Clear => None,
            FailureColumn::Preserve => m.failure_json,
            FailureColumn::Record => failure,
        },
        ..m
    }
}

/// The store with one Mutation gone along an edge, or why it is not.
pub open spec fn transitioned(
    v: StoreView,
    sequence: i64,
    from: MutationState,
    to: MutationState,
    failure: Option<Seq<char>>,
    now: Seq<char>,
) -> Result<StoreView, TransitionError> {
    let illegal = TransitionError::Illegal(IllegalTransition::Edge { sequence, from, to });
    match edge(from, to) {
        None => Err(illegal),
        Some(column) => {
            let i = place_of(v.mutations, sequence as int);
            if column == FailureColumn::Record && failure is None {
                Err(TransitionError::Illegal(IllegalTransition::MissingEvidence { sequence, to }))
            } else if !v.has_mutation(sequence as int) || v.mutations[i].state != from {
                Err(illegal)
            } else if !moved(v.mutations[i], to, column, failure, now).admitted() {
                Err(TransitionError::Storage(Fault::Check))
            } else {
                Ok(
                    StoreView {
                        mutations: v.mutations.update(
                            i,
                            moved(v.mutations[i], to, column, failure, now),
                        ),
                        ..v
                    },
                )
            }
        },
    }
}

fn edge_column(from: MutationState, to: MutationState) -> (r: Option<FailureColumn>)
    ensures
        r == edge(from, to),
{
    // Exhaustive in both positions: a state added later must not compile until
    // every edge into and out of it has been decided.
    match to {
        MutationState::Pending => match from {
            MutationState::Applying => Some(FailureColumn::Clear),
            MutationState::Pending
            | MutationState::Failed
            | MutationState::Skipped
            | MutationState::Cancelled
            | MutationState::Abandoned
            | MutationState::Applied => None,
        },
        MutationState::Failed => match from {
            MutationState::Pending | MutationState::Failed | MutationState::Applying => Some(
                FailureColumn::Record,
            ),
            MutationState::Skipped
            | MutationState::Cancelled
            | MutationState::Abandoned
            | MutationState::Applied => None,
        },
        MutationState::Applying => match from {
            MutationState::Pending | MutationState::Failed => Some(FailureColumn::Clear),
            MutationState::Applying => Some(FailureColumn::Record),
            MutationState::Skipped
            | MutationState::Cancelled
            | MutationState::Abandoned
            | MutationState::Applied => None,
        },
        MutationState::Skipped => match from {
            MutationState::Failed => Some(FailureColumn::Preserve),
            MutationState::Pending
            | MutationState::Applying
            | MutationState::Skipped
            | MutationState::Cancelled
            | MutationState::Abandoned
            | MutationState::Applied => None,
        },
        // Withdrawing an unobserved creation lands in `abandoned` instead, so
        // `cancelled` keeps meaning that nothing was created.
        MutationState::Cancelled => match from {
            MutationState::Pending | MutationState::Failed => Some(FailureColumn::Preserve),
            MutationState::Applying
            | MutationState::Skipped
            | MutationState::Cancelled
            | MutationState::Abandoned
            | MutationState::Applied => None,
        },
        // The unobserved creation's evidence is why the withdrawal happened,
        // so it survives the edge.
        MutationState::Abandoned => match from {
            MutationState::Applying => Some(FailureColumn::Preserve),
            MutationState::Pending
            | MutationState::Failed
            | MutationState::Skipped
            | MutationState::Cancelled
            | MutationState::Abandoned
            | MutationState::Applied => None,
        },
        MutationState::Applied => match from {
            MutationState::Pending | MutationState::Failed | MutationState::Applying => Some(
                FailureColumn::Clear,
            ),
            MutationState::Skipped
            | MutationState::Cancelled
            | MutationState::Abandoned
            | MutationState::Applied => None,
        },
    }
}

/// A sequence stands at one place alone.
pub proof fn lemma_place_of(v: StoreView, i: int)
    requires
        v.wf(),
        0 <= i < v.mutations.len(),
    ensures
        v.has_mutation(v.mutations[i].sequence),
        place_of(v.mutations, v.mutations[i].sequence) == i,
{
    let k = place_of(v.mutations, v.mutations[i].sequence);
    assert(0 <= k < v.mutations.len() && v.mutations[k].sequence == v.mutations[i].sequence);
}

/// Move one Mutation along one edge of the transition table.
///
/// A Mutation the caller misread is refused rather than dragged onto an edge
/// that was never validated. Preconditions that are not about the edge stay
/// with the workflow that owns them.
pub fn transition(store: &mut Store, req: TransitionRequest<'_>) -> (r: Result<
    (),
    TransitionError,
>)
    requires
        old(store).wf(),
    ensures
        final(store).wf(),
        match r {
            Ok(()) => transitioned(
                old(store)@,
                req.sequence,
                req.from,
                req.to,
                opt_str(req.failure),
                req.now@,
            ) == Ok::<StoreView, TransitionError>(final(store)@),
            Err(error) => {
                &&& transitioned(
                    old(store)@,
                    req.sequence,
                    req.from,
                    req.to,
                    opt_str(req.failure),
                    req.now@,
                ) == Err::<StoreView, TransitionError>(error)
                &&& final(store)@ == old(store)@
            },
        },
{
    let illegal = TransitionError::Illegal(
        IllegalTransition::Edge { sequence: req.sequence, from: req.from, to: req.to },
    );
    let column = match edge_column(req.from, req.to) {
        Some(column) => column,
        None => {
            return Err(illegal);
        },
    };
    if column == FailureColumn::Record && req.failure.is_none() {
        return Err(
            TransitionError::Illegal(
                IllegalTransition::MissingEvidence { sequence: req.sequence, to: req.to },
            ),
        );
    }
    let i: usize = match store.find_mutation(req.sequence) {
        Some(i) => i,
        None => {
            return Err(illegal);
        },
    };
    proof {
        lemma_place_of(store@, i as int);
    }
    let mut row = store.mutation(i).copy();
    if row.state != req.from {
        return Err(illegal);
    }
    row.state = req.to;
    row.state_changed_at = req.now.to_owned();
    match column {
        FailureColumn::Preserve => {},
        FailureColumn::Clear => {
            row.failure_json = None;
        },
        FailureColumn::Record => {
            row.failure_json = own_text(req.failure);
        },
    }
    proof {
        assert(row@ == moved(
            old(store)@.mutations[i as int],
            req.to,
            column,
            opt_str(req.failure),
            req.now@,
        ));
    }
    if !row.is_admitted() {
        return Err(TransitionError::Storage(Fault::Check));
    }
    proof {
        lemma_put_mutation(store@, i as int, row@);
    }
    store.put_mutation(i, row);
    Ok(())
}

/// The store with the Sync Cursor moved up to a sequence, where there is one.
pub open spec fn cursor_advanced(v: StoreView, sequence: int, now: Seq<char>) -> StoreView {
    StoreView {
        cursor: match v.cursor {
            None => None,
            Some(cursor) => Some(
                SyncCursorView {
                    last_applied_sequence: if cursor.last_applied_sequence < sequence {
                        sequence
                    } else {
                        cursor.last_applied_sequence
                    },
                    updated_at: now,
                },
            ),
        },
        ..v
    }
}

/// The store with one Mutation applied and the Sync Cursor moved along, or why
/// it is not.
pub open spec fn applied(
    v: StoreView,
    sequence: i64,
    from: MutationState,
    now: Seq<char>,
) -> Result<StoreView, TransitionError> {
    match transitioned(v, sequence, from, MutationState::Applied, None, now) {
        Ok(moved) => Ok(cursor_advanced(moved, sequence as int, now)),
        Err(error) => Err(error),
    }
}

/// Mark one Mutation applied and monotonically advance the Sync Cursor.
///
/// Both writes happen together, so no path exposes an applied Mutation that
/// the cursor has not observed.
pub fn mark_applied(store: &mut Store, sequence: i64, from: MutationState, now: &str) -> (r: Result<
    (),
    TransitionError,
>)
    requires
        old(store).wf(),
    ensures
        final(store).wf(),
        match r {
            Ok(()) => applied(old(store)@, sequence, from, now@) == Ok::<
                StoreView,
                TransitionError,
            >(final(store)@),
            Err(error) => {
                &&& applied(old(store)@, sequence, from, now@) == Err::<
                    StoreView,
                    TransitionError,
                >(error)
                &&& final(store)@ == old(store)@
            },
        },
{
    match transition(
        store,
        TransitionRequest { sequence, from, to: MutationState::Applied, failure: None, now },
    ) {
        Ok(()) => {},
        Err(error) => {
            return Err(error);
        },
    }
    let advanced: Option<SyncCursor> = match store.cursor() {
        None => None,
        Some(cursor) => {
            let last: i64 = if cursor.last_applied_sequence < sequence {
                sequence
            } else {
                cursor.last_applied_sequence
            };
            Some(SyncCursor { last_applied_sequence: last, updated_at: now.to_owned() })
        },
    };
    store.set_cursor(advanced);
    Ok(())
}

/// Why an Item's Backend Binding could not be told.
#[derive(Debug)]
pub enum BackendBindingError {
    /// No Item has the internal ID.
    Sqlite(Fault),
    /// A Promotion's stored payload is none.
    PayloadJson(MalformedPayload),
    /// An Item of backend Origin names no Backend.
    CorruptBackendKind(String),
}

/// The model of [`BackendBindingError`].
pub enum BindingFault {
    Sqlite(Fault),
    Payload,
    CorruptBackendKind(Seq<char>),
}

impl View for BackendBindingError {
    type V = BindingFault;

    open spec fn view(&self) -> BindingFault {
        match self {
            BackendBindingError::Sqlite(fault) => BindingFault::Sqlite(*fault),
            BackendBindingError::PayloadJson(_) => BindingFault::Payload,
            BackendBindingError::CorruptBackendKind(id) => BindingFault::CorruptBackendKind(id@),
        }
    }
}

/// The Backend Binding of an Item, or why it cannot be told.
///
/// An Item of backend Origin stands on the Backend that it names. A Local Item
/// is bound for the Backend of its earliest Promotion that awaits its outcome,
/// and is Local without one.
pub open spec fn binding(v: StoreView, id: Seq<char>) -> Result<BindingView, BindingFault> {
    let awaited = v.mutations.filter(awaited_promotion_of(id));
    if !v.has(id) {
        Err(BindingFault::Sqlite(Fault::NoRow))
    } else if v.item(id).origin == Origin::Backend {
        match v.item(id).backend_kind {
            Some(kind) => Ok(BindingView::Backend(kind)),
            None => Err(BindingFault::CorruptBackendKind(id)),
        }
    } else if awaited.len() == 0 {
        Ok(BindingView::Local)
    } else {
        match promotion_in(awaited[0].payload_json) {
            Some(promotion) => Ok(BindingView::PendingPromotion(promotion.backend_kind)),
            None => Err(BindingFault::Payload),
        }
    }
}

/// Resolve the Backend Binding of the Item with the internal ID.
///
/// The Backend of a pending Promotion comes from that Mutation's payload, not
/// from the configured Remote: the target is intent frozen at commit time.
pub fn resolve_backend_binding(store: &Store, item_id: &str) -> (r: Result<
    BackendBinding,
    BackendBindingError,
>)
    requires
        store.wf(),
    ensures
        match r {
            Ok(found) => binding(store@, item_id@) == Ok::<BindingView, BindingFault>(found@),
            Err(error) => binding(store@, item_id@) == Err::<BindingView, BindingFault>(error@),
        },
{
    let i: usize = match store.find(item_id) {
        Some(i) => i,
        None => {
            return Err(BackendBindingError::Sqlite(Fault::NoRow));
        },
    };
    let item = store.item(i);
    if item.origin == Origin::Backend {
        return match &item.backend_kind {
            Some(kind) => Ok(BackendBinding::Backend { backend_kind: kind.clone() }),
            None => Err(BackendBindingError::CorruptBackendKind(item_id.to_owned())),
        };
    }
    let awaited = places(store, &Pick::AwaitedPromotionOf(item_id));
    if awaited.len() == 0 {
        return Ok(BackendBinding::Local);
    }
    let first = store.mutation(awaited[0]);
    proof {
        assert(picked(store@.mutations, awaited@)[0] == first@);
    }
    match read_promotion(first.payload_json.as_str()) {
        Ok(promotion) => Ok(
            BackendBinding::PendingPromotion { backend_kind: promotion.backend_kind },
        ),
        Err(error) => Err(BackendBindingError::PayloadJson(error)),
    }
}

// ---- Laws ---------------------------------------------------------------

/// No edge leaves a terminal state.
pub proof fn law_terminal_states_have_no_exit(from: MutationState, to: MutationState)
    requires
        !from.is_nonterminal(),
    ensures
        edge(from, to) is None,
{
}

/// An applying Mutation is never cancelled, and only an applying one is
/// abandoned.
pub proof fn law_only_an_applying_mutation_is_abandoned(from: MutationState)
    ensures
        edge(MutationState::Applying, MutationState::Cancelled) is None,
        edge(from, MutationState::Abandoned) is Some ==> from == MutationState::Applying,
{
}

/// A state change touches one Mutation, in its state, evidence and time alone.
pub proof fn law_transition_touches_one_mutation(
    v: StoreView,
    sequence: i64,
    from: MutationState,
    to: MutationState,
    failure: Option<Seq<char>>,
    now: Seq<char>,
    i: int,
)
    requires
        v.wf(),
        transitioned(v, sequence, from, to, failure, now) is Ok,
        0 <= i < v.mutations.len(),
    ensures
        ({
            let after = transitioned(v, sequence, from, to, failure, now)->Ok_0;
            &&& after == StoreView { mutations: after.mutations, ..v }
            &&& after.mutations.len() == v.mutations.len()
            &&& v.mutations[i].sequence != sequence ==> after.mutations[i] == v.mutations[i]
            &&& v.mutations[i].sequence == sequence ==> after.mutations[i] == (MutationView {
                state: to,
                state_changed_at: now,
                failure_json: after.mutations[i].failure_json,
                ..v.mutations[i]
            })
        }),
{
    lemma_place_of(v, i);
}

/// The Sync Cursor never moves back.
pub proof fn law_cursor_is_monotone(
    v: StoreView,
    sequence: i64,
    from: MutationState,
    now: Seq<char>,
)
    requires
        applied(v, sequence, from, now) is Ok,
        v.cursor is Some,
    ensures
        applied(v, sequence, from, now)->Ok_0.cursor is Some,
        applied(v, sequence, from, now)->Ok_0.cursor->0.last_applied_sequence
            >= v.cursor->0.last_applied_sequence,
        applied(v, sequence, from, now)->Ok_0.cursor->0.last_applied_sequence >= sequence,
{
}

/// An appended Mutation takes the next sequence, and every Mutation that was
/// there stays as it was.
pub proof fn law_append_keeps_the_log(v: StoreView, request: AppendView, m: MutationView)
    requires
        v.wf(),
        appended(v, request) is Ok,
        v.mutations.contains(m),
    ensures
        appended(v, request)->Ok_0.mutations.contains(m),
        appended(v, request)->Ok_0.mutation_seq == Some(v.mutation_seq->0 + 1),
        appended(v, request)->Ok_0.mutations.contains(
            pending_row(request, v.mutation_seq->0 + 1),
        ),
{
    let row = pending_row(request, v.mutation_seq->0 + 1);
    crate::keep::lemma_mutation_place(v.mutations, row.sequence);
    crate::keep::lemma_insert_contains(
        v.mutations,
        crate::tables::mutation_place(v.mutations, row.sequence),
        row,
    );
}

/// A Backend Binding is told without the configured Remote: what a Promotion is
/// meant for was decided when it was committed.
pub proof fn law_a_binding_ignores_the_remote(
    v: StoreView,
    kind: Option<BackendKind>,
    id: Seq<char>,
)
    ensures
        binding(StoreView { remote_kind: kind, ..v }, id) == binding(v, id),
{
}

} // verus!
