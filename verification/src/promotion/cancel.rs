//! Withdrawal of a Promotion Operation.

use vstd::prelude::*;

use crate::domain::{
    classified, classify, BackendBinding, BackendKind, BindingView, DependencyClassification,
    DependencyRejection, ItemClass, MutationState, MutationType, Origin,
};
use crate::mutations::{
    applied_in_operation, awaited_promotion_of, binding, law_a_binding_ignores_the_remote,
    lemma_place_of, moved, places,
    promotion_of, resolve_backend_binding, transition, unobserved_in_operation,
    untried_in_operation, withdrawable, BackendBindingError, BindingFault, FailureColumn,
    IllegalTransition, Pick, TransitionError, TransitionRequest,
};
use crate::payload::{addressed_counterpart_id, counterpart_in};
use crate::rows::{text_is, Mutation, MutationView};
use crate::select::{
    in_table, lemma_filter_all, lemma_filter_contains, lemma_filter_none, lemma_filter_step,
    lemma_first, picked,
};
use crate::tables::{waits, Fault, Store, StoreView};
use crate::text::same_text;

use super::graph::{ascending, graph_pairs, insert_pair, lemma_ascending_unique, GraphDependency};
use super::recovery::{
    lemma_mutation_target, recoverable, recoverable_promotion, RecoveryFault,
    RecoveryPromotionError,
};

verus! {

/// One Promotion of the withdrawn operation. Which group of the report it
/// lands in says what became of it.
#[derive(Clone, Debug, PartialEq, Eq)]
pub struct ReportedPromotion {
    pub sequence: i64,
    pub display_id: String,
    pub item_class: ItemClass,
}

impl ReportedPromotion {
    /// Whether the report shows the Promotion.
    pub open spec fn shows(&self, v: StoreView, m: MutationView) -> bool {
        &&& self.sequence == m.sequence
        &&& self.display_id@ == v.item(m.item_id).display_id
        &&& self.item_class == m.item_class
    }
}

/// One Mutation the withdrawal took with the Promotions.
#[derive(Clone, Debug, PartialEq, Eq)]
pub struct WithdrawnMutation {
    pub sequence: i64,
    pub mutation_type: MutationType,
    pub target_display_id: String,
    /// Whether the target is itself one of the withdrawn Items. Where it is
    /// not, this is intent lost for an object that exists on the Backend.
    pub target_cancelled: bool,
}

impl WithdrawnMutation {
    /// Whether the report shows the Mutation.
    pub open spec fn shows(&self, v: StoreView, operation_id: Seq<char>, m: MutationView) -> bool {
        &&& self.sequence == m.sequence
        &&& self.mutation_type == m.mutation_type
        &&& self.target_display_id@ == v.item(m.item_id).display_id
        &&& self.target_cancelled == withdrawn(v, operation_id, m.item_id)
    }
}

/// What one withdrawal took, each list in Mutation Sequence order.
#[derive(Clone, Debug, PartialEq, Eq)]
pub struct CancellationReport {
    /// Promotions that created nothing on the Backend.
    pub cancelled_promotions: Vec<ReportedPromotion>,
    /// Promotions withdrawn while their creation was unobserved: an object may
    /// exist on the Backend that the store holds no identity for.
    pub abandoned_promotions: Vec<ReportedPromotion>,
    /// Promotions the Backend already accepted: reported, not undone.
    pub applied_promotions: Vec<ReportedPromotion>,
    /// Everything else the withdrawal took.
    pub withdrawn: Vec<WithdrawnMutation>,
}

impl CancellationReport {
    /// Whether the report tells what withdrawing the operation takes.
    pub open spec fn tells(&self, v: StoreView, operation_id: Seq<char>) -> bool {
        let untried = v.mutations.filter(untried_in_operation(operation_id));
        let unobserved = v.mutations.filter(unobserved_in_operation(operation_id));
        let accepted = v.mutations.filter(applied_in_operation(operation_id));
        let taken = v.mutations.filter(collateral(v, operation_id));
        &&& self.cancelled_promotions@.len() == untried.len()
        &&& forall|k: int|
            0 <= k < untried.len() ==> (#[trigger] self.cancelled_promotions@[k]).shows(
                v,
                untried[k],
            )
        &&& self.abandoned_promotions@.len() == unobserved.len()
        &&& forall|k: int|
            0 <= k < unobserved.len() ==> (#[trigger] self.abandoned_promotions@[k]).shows(
                v,
                unobserved[k],
            )
        &&& self.applied_promotions@.len() == accepted.len()
        &&& forall|k: int|
            0 <= k < accepted.len() ==> (#[trigger] self.applied_promotions@[k]).shows(
                v,
                accepted[k],
            )
        &&& self.withdrawn@.len() == taken.len()
        &&& forall|k: int|
            0 <= k < taken.len() ==> (#[trigger] self.withdrawn@[k]).shows(
                v,
                operation_id,
                taken[k],
            )
    }
}

/// A Dependency that a withdrawal would leave unrepresentable.
#[derive(Clone, Debug, PartialEq, Eq)]
pub struct UnrepresentableDependency {
    pub blocked_display_id: String,
    pub blocking_display_id: String,
    pub rejection: DependencyRejection,
}

/// The model of [`UnrepresentableDependency`].
#[verifier::ext_equal]
pub struct UnrepresentableView {
    pub blocked_display_id: Seq<char>,
    pub blocking_display_id: Seq<char>,
    pub rejection: DependencyRejection,
}

impl View for UnrepresentableDependency {
    type V = UnrepresentableView;

    open spec fn view(&self) -> UnrepresentableView {
        UnrepresentableView {
            blocked_display_id: self.blocked_display_id@,
            blocking_display_id: self.blocking_display_id@,
            rejection: self.rejection,
        }
    }
}

/// Why a Promotion Operation was not withdrawn.
#[derive(Debug)]
pub enum CancelPromotionError {
    Storage(Fault),
    Recovery(Box<RecoveryPromotionError>),
    /// The withdrawal would leave a bound Item waiting on a Local one.
    UnrepresentableDependencies(Vec<UnrepresentableDependency>),
    /// Every Promotion of the operation has already resolved.
    NothingToWithdraw(String),
    /// A stored payload does not hold the Item that its type promises.
    MalformedPayload { sequence: i64 },
    BackendBinding(BackendBindingError),
    Transition(IllegalTransition),
}

/// The model of [`CancelPromotionError`].
pub enum CancelFault {
    Storage(Fault),
    Recovery(RecoveryFault),
    UnrepresentableDependencies(Seq<UnrepresentableView>),
    NothingToWithdraw(Seq<char>),
    MalformedPayload(int),
    BackendBinding(BindingFault),
    Transition(IllegalTransition),
}

impl View for CancelPromotionError {
    type V = CancelFault;

    open spec fn view(&self) -> CancelFault {
        match self {
            CancelPromotionError::Storage(fault) => CancelFault::Storage(*fault),
            CancelPromotionError::Recovery(error) => CancelFault::Recovery((**error)@),
            CancelPromotionError::UnrepresentableDependencies(list) => {
                CancelFault::UnrepresentableDependencies(
                    list@.map_values(|d: UnrepresentableDependency| d@),
                )
            },
            CancelPromotionError::NothingToWithdraw(id) => CancelFault::NothingToWithdraw(id@),
            CancelPromotionError::MalformedPayload { sequence } => CancelFault::MalformedPayload(
                *sequence as int,
            ),
            CancelPromotionError::BackendBinding(error) => CancelFault::BackendBinding(error@),
            CancelPromotionError::Transition(error) => CancelFault::Transition(*error),
        }
    }
}

/// The Promotion Operation that a withdrawal by Item names: that of the Item's
/// Promotion that awaits its outcome, or else of its latest one.
pub open spec fn cancellable_operation(v: StoreView, id: Seq<char>) -> Result<
    Seq<char>,
    RecoveryFault,
> {
    let all = v.mutations.filter(promotion_of(id));
    match recoverable(v, id) {
        Ok(promotion) => Ok(promotion.operation_id),
        Err(RecoveryFault::TerminalPromotion(item_id, sequence, state)) => match all.last().promotion_operation_id {
            Some(operation_id) => Ok(operation_id),
            None => Err(RecoveryFault::MissingOperationId(sequence)),
        },
        Err(fault) => Err(fault),
    }
}

/// Whether the withdrawal of the operation takes the Item's prospective
/// identity away.
pub open spec fn withdrawn(v: StoreView, operation_id: Seq<char>, id: Seq<char>) -> bool {
    exists|i: int|
        0 <= i < v.mutations.len() && (#[trigger] v.mutations[i]).item_id == id
            && v.mutations[i].promotion_operation_id == Some(operation_id)
            && v.mutations[i].mutation_type.promotes() && v.mutations[i].state.is_nonterminal()
}

/// Whether a Mutation cannot resolve once the operation is withdrawn: it
/// targets or addresses a withdrawn Item.
pub open spec fn collateral(v: StoreView, operation_id: Seq<char>) -> spec_fn(MutationView) -> bool {
    |m: MutationView|
        (withdrawable())(m) && (withdrawn(v, operation_id, m.item_id) || match counterpart_in(
            m.mutation_type,
            m.payload_json,
        ) {
            Some(Some(id)) => withdrawn(v, operation_id, id),
            _ => false,
        })
}

/// The Backend Binding that an Item will have once the operation is withdrawn.
pub open spec fn binding_after(v: StoreView, operation_id: Seq<char>, id: Seq<char>) -> Result<
    BindingView,
    BindingFault,
> {
    if withdrawn(v, operation_id, id) {
        Ok(BindingView::Local)
    } else {
        binding(v, id)
    }
}

/// Whether a Dependency has a withdrawn end.
pub open spec fn affected(
    v: StoreView,
    operation_id: Seq<char>,
    pair: (Seq<char>, Seq<char>),
) -> bool {
    waits(v.dependencies).contains(pair) && (withdrawn(v, operation_id, pair.0) || withdrawn(
        v,
        operation_id,
        pair.1,
    ))
}

/// The pairs that meet a condition, in ascending order.
pub open spec fn pairs_where(cond: spec_fn((Seq<char>, Seq<char>)) -> bool) -> Seq<
    (Seq<char>, Seq<char>),
> {
    choose|pairs: Seq<(Seq<char>, Seq<char>)>|
        ascending(pairs) && forall|p: (Seq<char>, Seq<char>)| #[trigger]
            pairs.contains(p) == cond(p)
}

/// The Dependencies with a withdrawn end, by the blocked and then the blocking
/// Item.
pub open spec fn affected_pairs(v: StoreView, operation_id: Seq<char>) -> Seq<
    (Seq<char>, Seq<char>),
> {
    pairs_where(|p: (Seq<char>, Seq<char>)| affected(v, operation_id, p))
}

/// The Dependencies among the given ones that the withdrawal would leave
/// unrepresentable, or the first Backend Binding that cannot be told.
pub open spec fn judged(
    v: StoreView,
    operation_id: Seq<char>,
    pairs: Seq<(Seq<char>, Seq<char>)>,
) -> Result<Seq<UnrepresentableView>, BindingFault>
    decreases pairs.len(),
{
    if pairs.len() == 0 {
        Ok(Seq::empty())
    } else {
        match judged(v, operation_id, pairs.drop_last()) {
            Err(fault) => Err(fault),
            Ok(list) => match binding_after(v, operation_id, pairs.last().0) {
                Err(fault) => Err(fault),
                Ok(blocked) => match binding_after(v, operation_id, pairs.last().1) {
                    Err(fault) => Err(fault),
                    Ok(blocking) => match classified(blocked, blocking) {
                        DependencyClassification::Rejected(rejection) => Ok(
                            list.push(
                                UnrepresentableView {
                                    blocked_display_id: v.item(pairs.last().0).display_id,
                                    blocking_display_id: v.item(pairs.last().1).display_id,
                                    rejection,
                                },
                            ),
                        ),
                        _ => Ok(list),
                    },
                },
            },
        }
    }
}

/// Whether a Mutation that a withdrawal may take does not name the Item that
/// its type promises.
pub open spec fn undecodable() -> spec_fn(MutationView) -> bool {
    |m: MutationView|
        (withdrawable())(m) && counterpart_in(m.mutation_type, m.payload_json) is None
}

/// Why the operation that the Item names may not be withdrawn, if it may not.
pub open spec fn cancel_refusal(v: StoreView, id: Seq<char>) -> Option<CancelFault> {
    match cancellable_operation(v, id) {
        Err(fault) => Some(CancelFault::Recovery(fault)),
        Ok(operation_id) => {
            let broken = v.mutations.filter(undecodable());
            if v.mutations.filter(untried_in_operation(operation_id)).len() == 0
                && v.mutations.filter(unobserved_in_operation(operation_id)).len() == 0 {
                Some(CancelFault::NothingToWithdraw(operation_id))
            } else {
                match judged(v, operation_id, affected_pairs(v, operation_id)) {
                    Err(fault) => Some(CancelFault::BackendBinding(fault)),
                    Ok(list) => if list.len() > 0 {
                        Some(CancelFault::UnrepresentableDependencies(list))
                    } else if broken.len() > 0 {
                        Some(CancelFault::MalformedPayload(broken[0].sequence))
                    } else {
                        None
                    },
                }
            }
        },
    }
}

/// What becomes of a Mutation when the operation is withdrawn.
pub open spec fn after_cancellation(
    v: StoreView,
    operation_id: Seq<char>,
    m: MutationView,
    now: Seq<char>,
) -> MutationView {
    if (untried_in_operation(operation_id))(m) || (collateral(v, operation_id))(m) {
        moved(m, MutationState::Cancelled, FailureColumn::Preserve, None, now)
    } else if (unobserved_in_operation(operation_id))(m) {
        moved(m, MutationState::Abandoned, FailureColumn::Preserve, None, now)
    } else {
        m
    }
}

/// The store with the operation withdrawn.
pub open spec fn cancelled(v: StoreView, operation_id: Seq<char>, now: Seq<char>) -> StoreView {
    StoreView {
        mutations: Seq::new(
            v.mutations.len(),
            |i: int| after_cancellation(v, operation_id, v.mutations[i], now),
        ),
        ..v
    }
}

fn cancellable_operation_id(store: &Store, item_id: &str) -> (r: Result<
    String,
    CancelPromotionError,
>)
    requires
        store.wf(),
    ensures
        match r {
            Ok(operation_id) => cancellable_operation(store@, item_id@) == Ok::<
                Seq<char>,
                RecoveryFault,
            >(operation_id@),
            Err(error) => cancellable_operation(store@, item_id@) is Err && error@
                == CancelFault::Recovery(cancellable_operation(store@, item_id@)->Err_0),
        },
{
    match recoverable_promotion(store, item_id) {
        Ok(promotion) => Ok(promotion.operation_id),
        Err(RecoveryPromotionError::TerminalPromotion { item_id: id, sequence, state }) => {
            let all = places(store, &Pick::PromotionOf(item_id));
            let ghost rows = picked(store@.mutations, all@);
            proof {
                assert(rows.len() > 0);
            }
            let last = store.mutation(all[all.len() - 1]);
            proof {
                assert(rows.last() == last@);
            }
            match &last.promotion_operation_id {
                Some(operation_id) => Ok(operation_id.clone()),
                None => Err(
                    CancelPromotionError::Recovery(
                        Box::new(RecoveryPromotionError::MissingOperationId(sequence)),
                    ),
                ),
            }
        },
        Err(error) => Err(CancelPromotionError::Recovery(Box::new(error))),
    }
}

fn is_withdrawn(store: &Store, operation_id: &str, id: &str) -> (r: bool)
    ensures
        r == withdrawn(store@, operation_id@, id@),
{
    let mut i: usize = 0;
    while i < store.mutation_count()
        invariant
            0 <= i <= store@.mutations.len(),
            forall|k: int|
                0 <= k < i ==> !((#[trigger] store@.mutations[k]).item_id == id@
                    && store@.mutations[k].promotion_operation_id == Some(operation_id@)
                    && store@.mutations[k].mutation_type.promotes()
                    && store@.mutations[k].state.is_nonterminal()),
        decreases store@.mutations.len() - i,
    {
        let m = store.mutation(i);
        if same_text(m.item_id.as_str(), id) && text_is(&m.promotion_operation_id, operation_id)
            && m.mutation_type.is_promotion() && m.state.nonterminal() {
            proof {
                assert(store@.mutations[i as int].item_id == id@);
            }
            return true;
        }
        i = i + 1;
    }
    false
}

/// The Dependencies with a withdrawn end, in order.
fn affected_edges(store: &Store, operation_id: &str) -> (r: Vec<GraphDependency>)
    requires
        store.wf(),
    ensures
        graph_pairs(r@) == affected_pairs(store@, operation_id@),
        forall|p: (Seq<char>, Seq<char>)| #[trigger]
            graph_pairs(r@).contains(p) == affected(store@, operation_id@, p),
{
    let ghost all = waits(store@.dependencies);
    let mut out: Vec<GraphDependency> = Vec::new();
    let mut i: usize = 0;
    while i < store.dependency_count()
        invariant
            0 <= i <= store@.dependencies.len(),
            store.wf(),
            all == waits(store@.dependencies),
            ascending(graph_pairs(out@)),
            forall|p: (Seq<char>, Seq<char>)| #[trigger]
                graph_pairs(out@).contains(p) == (all.take(i as int).contains(p) && (withdrawn(
                    store@,
                    operation_id@,
                    p.0,
                ) || withdrawn(store@, operation_id@, p.1))),
        decreases store@.dependencies.len() - i,
    {
        let d = store.dependency(i);
        let ghost pair = all[i as int];
        let ghost head = all.take(i as int);
        let ghost longer = all.take(i + 1);
        proof {
            assert(pair == (d.blocked_id@, d.blocking_id@));
            assert(longer =~= head.push(pair));
            assert(!head.contains(pair)) by {
                if head.contains(pair) {
                    let k = choose|k: int| 0 <= k < head.len() && head[k] == pair;
                    assert(all[k] == all[i as int]);
                }
            }
        }
        let keep = is_withdrawn(store, operation_id, d.blocked_id.as_str()) || is_withdrawn(
            store,
            operation_id,
            d.blocking_id.as_str(),
        );
        if keep {
            insert_pair(&mut out, d.blocked_id.as_str(), d.blocking_id.as_str());
        }
        proof {
            assert forall|p: (Seq<char>, Seq<char>)| #[trigger]
                graph_pairs(out@).contains(p) == (longer.contains(p) && (withdrawn(
                    store@,
                    operation_id@,
                    p.0,
                ) || withdrawn(store@, operation_id@, p.1))) by {
                if longer.contains(p) {
                    let k = choose|k: int| 0 <= k < i + 1 && longer[k] == p;
                    if k < i {
                        assert(head[k] == p);
                    }
                }
                if head.contains(p) {
                    let k = choose|k: int| 0 <= k < i && head[k] == p;
                    assert(longer[k] == p);
                }
                if p == pair {
                    assert(longer[i as int] == p);
                }
            }
        }
        i = i + 1;
    }
    proof {
        assert(all.take(all.len() as int) =~= all);
        let pairs = graph_pairs(out@);
        assert(ascending(pairs) && forall|p: (Seq<char>, Seq<char>)| #[trigger]
            pairs.contains(p) == affected(store@, operation_id@, p));
        lemma_ascending_unique(pairs, affected_pairs(store@, operation_id@));
    }
    out
}

fn binding_once_withdrawn(store: &Store, operation_id: &str, id: &str) -> (r: Result<
    BackendBinding,
    BackendBindingError,
>)
    requires
        store.wf(),
    ensures
        match r {
            Ok(found) => binding_after(store@, operation_id@, id@) == Ok::<
                BindingView,
                BindingFault,
            >(found@),
            Err(error) => binding_after(store@, operation_id@, id@) == Err::<
                BindingView,
                BindingFault,
            >(error@),
        },
{
    if is_withdrawn(store, operation_id, id) {
        Ok(BackendBinding::Local)
    } else {
        resolve_backend_binding(store, id)
    }
}

/// A fault among the first pairs is one among all.
proof fn lemma_judged_fails(
    v: StoreView,
    operation_id: Seq<char>,
    pairs: Seq<(Seq<char>, Seq<char>)>,
    n: int,
)
    requires
        0 <= n <= pairs.len(),
        judged(v, operation_id, pairs.take(n)) is Err,
    ensures
        judged(v, operation_id, pairs) == judged(v, operation_id, pairs.take(n)),
    decreases pairs.len() - n,
{
    if n < pairs.len() {
        assert(pairs.take(n + 1).drop_last() =~= pairs.take(n));
        lemma_judged_fails(v, operation_id, pairs, n + 1);
    } else {
        assert(pairs.take(n) =~= pairs);
    }
}

/// Refuse a withdrawal that would leave a Dependency that cannot be
/// represented.
fn ensure_dependencies_representable(store: &Store, operation_id: &str) -> (r: Result<
    (),
    CancelPromotionError,
>)
    requires
        store.wf(),
    ensures
        ({
            let verdict = judged(
                store@,
                operation_id@,
                affected_pairs(store@, operation_id@),
            );
            match r {
                Ok(()) => verdict is Ok && verdict->Ok_0.len() == 0,
                Err(error) => match verdict {
                    Err(fault) => error@ == CancelFault::BackendBinding(fault),
                    Ok(list) => list.len() > 0 && error@
                        == CancelFault::UnrepresentableDependencies(list),
                },
            }
        }),
{
    let edges = affected_edges(store, operation_id);
    let ghost pairs = graph_pairs(edges@);
    let mut rejected: Vec<UnrepresentableDependency> = Vec::new();
    let mut i: usize = 0;
    proof {
        assert(rejected@.map_values(|d: UnrepresentableDependency| d@) =~= Seq::empty());
        assert(pairs.take(0).len() == 0);
    }
    while i < edges.len()
        invariant
            0 <= i <= edges@.len(),
            store.wf(),
            pairs == graph_pairs(edges@),
            pairs == affected_pairs(store@, operation_id@),
            forall|p: (Seq<char>, Seq<char>)| #[trigger]
                pairs.contains(p) == affected(store@, operation_id@, p),
            judged(store@, operation_id@, pairs.take(i as int)) == Ok::<
                Seq<UnrepresentableView>,
                BindingFault,
            >(rejected@.map_values(|d: UnrepresentableDependency| d@)),
        decreases edges@.len() - i,
    {
        let e = &edges[i];
        let ghost head = pairs.take(i + 1);
        proof {
            assert(head.drop_last() =~= pairs.take(i as int));
            assert(head.last() == pairs[i as int]);
            assert(pairs[i as int] == (e.blocked_id@, e.blocking_id@));
            assert(pairs.contains(pairs[i as int]));
            let all = waits(store@.dependencies);
            let k = choose|k: int| 0 <= k < all.len() && all[k] == pairs[i as int];
            assert(store@.dependencies[k].blocked_id == e.blocked_id@);
        }
        let blocked = match binding_once_withdrawn(store, operation_id, e.blocked_id.as_str()) {
            Ok(blocked) => blocked,
            Err(error) => {
                proof {
                    lemma_judged_fails(store@, operation_id@, pairs, i + 1);
                }
                return Err(CancelPromotionError::BackendBinding(error));
            },
        };
        let blocking = match binding_once_withdrawn(store, operation_id, e.blocking_id.as_str()) {
            Ok(blocking) => blocking,
            Err(error) => {
                proof {
                    lemma_judged_fails(store@, operation_id@, pairs, i + 1);
                }
                return Err(CancelPromotionError::BackendBinding(error));
            },
        };
        match classify(&blocked, &blocking) {
            DependencyClassification::Rejected(rejection) => {
                match (store.find(e.blocked_id.as_str()), store.find(e.blocking_id.as_str())) {
                    (Some(b), Some(k)) => {
                        let ghost before = rejected@;
                        rejected.push(
                            UnrepresentableDependency {
                                blocked_display_id: store.item(b).display_id.clone(),
                                blocking_display_id: store.item(k).display_id.clone(),
                                rejection,
                            },
                        );
                        proof {
                            assert(rejected@.map_values(|d: UnrepresentableDependency| d@)
                                =~= before.map_values(|d: UnrepresentableDependency| d@).push(
                                rejected@.last()@,
                            ));
                        }
                    },
                    _ => {
                        proof {
                            assert(false);
                        }
                        return Err(CancelPromotionError::Storage(Fault::NoRow));
                    },
                }
            },
            _ => {},
        }
        i = i + 1;
    }
    proof {
        assert(pairs.take(i as int) =~= pairs);
    }
    if rejected.len() == 0 {
        Ok(())
    } else {
        Err(CancelPromotionError::UnrepresentableDependencies(rejected))
    }
}

fn is_collateral(store: &Store, operation_id: &str, m: &Mutation) -> (r: Option<bool>)
    requires
        (withdrawable())(m@),
    ensures
        match r {
            Some(taken) => taken == (collateral(store@, operation_id@))(m@)
                && !(undecodable())(m@),
            None => (undecodable())(m@),
        },
{
    match addressed_counterpart_id(m.mutation_type, m.payload_json.as_str()) {
        Err(_) => None,
        Ok(counterpart) => {
            if is_withdrawn(store, operation_id, m.item_id.as_str()) {
                return Some(true);
            }
            match counterpart {
                Some(id) => Some(is_withdrawn(store, operation_id, id.as_str())),
                None => Some(false),
            }
        },
    }
}

/// The places of the Mutations that the withdrawal takes besides the
/// Promotions, in Mutation Sequence order.
fn collateral_places(store: &Store, operation_id: &str) -> (r: Result<
    Vec<usize>,
    CancelPromotionError,
>)
    requires
        store.wf(),
    ensures
        match r {
            Ok(at) => {
                &&& in_table(at@, store@.mutations.len() as int)
                &&& picked(store@.mutations, at@) == store@.mutations.filter(
                    collateral(store@, operation_id@),
                )
                &&& store@.mutations.filter(undecodable()).len() == 0
            },
            Err(error) => {
                let broken = store@.mutations.filter(undecodable());
                &&& broken.len() > 0
                &&& error@ == CancelFault::MalformedPayload(broken[0].sequence)
            },
        },
{
    let ghost cond = collateral(store@, operation_id@);
    let ghost bad = undecodable();
    let mut out: Vec<usize> = Vec::new();
    let mut i: usize = 0;
    proof {
        lemma_filter_none(store@.mutations, cond);
        lemma_filter_none(store@.mutations, bad);
        assert(picked(store@.mutations, out@) =~= Seq::empty());
    }
    while i < store.mutation_count()
        invariant
            0 <= i <= store@.mutations.len(),
            cond == collateral(store@, operation_id@),
            bad == undecodable(),
            in_table(out@, store@.mutations.len() as int),
            picked(store@.mutations, out@) == store@.mutations.take(i as int).filter(cond),
            store@.mutations.take(i as int).filter(bad).len() == 0,
        decreases store@.mutations.len() - i,
    {
        let m = store.mutation(i);
        let ghost before = out@;
        proof {
            lemma_filter_step(store@.mutations, cond, i as int);
            lemma_filter_step(store@.mutations, bad, i as int);
        }
        let waiting = match m.state {
            MutationState::Pending | MutationState::Failed => true,
            _ => false,
        };
        if waiting && !m.mutation_type.is_promotion() {
            match is_collateral(store, operation_id, m) {
                None => {
                    proof {
                        lemma_first(store@.mutations, bad, i as int);
                    }
                    return Err(CancelPromotionError::MalformedPayload { sequence: m.sequence });
                },
                Some(true) => {
                    out.push(i);
                    proof {
                        assert(picked(store@.mutations, out@) =~= picked(
                            store@.mutations,
                            before,
                        ).push(store@.mutations[i as int]));
                    }
                },
                Some(false) => {},
            }
        }
        i = i + 1;
    }
    proof {
        lemma_filter_all(store@.mutations, cond);
        lemma_filter_all(store@.mutations, bad);
    }
    Ok(out)
}

fn reported(store: &Store, at: &Vec<usize>) -> (r: Vec<ReportedPromotion>)
    requires
        store.wf(),
        in_table(at@, store@.mutations.len() as int),
    ensures
        r@.len() == at@.len(),
        forall|k: int|
            0 <= k < r@.len() ==> (#[trigger] r@[k]).shows(
                store@,
                picked(store@.mutations, at@)[k],
            ),
{
    let mut out: Vec<ReportedPromotion> = Vec::new();
    let mut k: usize = 0;
    while k < at.len()
        invariant
            0 <= k <= at@.len(),
            store.wf(),
            in_table(at@, store@.mutations.len() as int),
            out@.len() == k,
            forall|j: int|
                0 <= j < k ==> (#[trigger] out@[j]).shows(
                    store@,
                    picked(store@.mutations, at@)[j],
                ),
        decreases at@.len() - k,
    {
        let m = store.mutation(at[k]);
        proof {
            lemma_mutation_target(store@, at@[k as int] as int);
        }
        let display_id = match store.find(m.item_id.as_str()) {
            Some(i) => store.item(i).display_id.clone(),
            None => String::new(),
        };
        out.push(
            ReportedPromotion { sequence: m.sequence, display_id, item_class: m.item_class },
        );
        k = k + 1;
    }
    out
}

fn reported_collateral(store: &Store, operation_id: &str, at: &Vec<usize>) -> (r: Vec<
    WithdrawnMutation,
>)
    requires
        store.wf(),
        in_table(at@, store@.mutations.len() as int),
    ensures
        r@.len() == at@.len(),
        forall|k: int|
            0 <= k < r@.len() ==> (#[trigger] r@[k]).shows(
                store@,
                operation_id@,
                picked(store@.mutations, at@)[k],
            ),
{
    let mut out: Vec<WithdrawnMutation> = Vec::new();
    let mut k: usize = 0;
    while k < at.len()
        invariant
            0 <= k <= at@.len(),
            store.wf(),
            in_table(at@, store@.mutations.len() as int),
            out@.len() == k,
            forall|j: int|
                0 <= j < k ==> (#[trigger] out@[j]).shows(
                    store@,
                    operation_id@,
                    picked(store@.mutations, at@)[j],
                ),
        decreases at@.len() - k,
    {
        let m = store.mutation(at[k]);
        proof {
            lemma_mutation_target(store@, at@[k as int] as int);
        }
        let target_display_id = match store.find(m.item_id.as_str()) {
            Some(i) => store.item(i).display_id.clone(),
            None => String::new(),
        };
        out.push(
            WithdrawnMutation {
                sequence: m.sequence,
                mutation_type: m.mutation_type,
                target_display_id,
                target_cancelled: is_withdrawn(store, operation_id, m.item_id.as_str()),
            },
        );
        k = k + 1;
    }
    out
}

/// Moves every Mutation that the withdrawal takes into its terminal state.
fn withdraw(store: &mut Store, operation_id: &str, now: &str) -> (r: Result<(), TransitionError>)
    requires
        old(store).wf(),
        old(store)@.mutations.filter(undecodable()).len() == 0,
    ensures
        r is Ok,
        final(store).wf(),
        final(store)@ == cancelled(old(store)@, operation_id@, now@),
{
    let before = store.copy();
    let ghost v = store@;
    let mut i: usize = 0;
    while i < before.mutation_count()
        invariant
            0 <= i <= v.mutations.len(),
            v == before@,
            v.wf(),
            store.wf(),
            store@ == (StoreView { mutations: store@.mutations, ..v }),
            store@.mutations.len() == v.mutations.len(),
            v.mutations.filter(undecodable()).len() == 0,
            forall|k: int|
                0 <= k < i ==> #[trigger] store@.mutations[k] == after_cancellation(
                    v,
                    operation_id@,
                    v.mutations[k],
                    now@,
                ),
            forall|k: int|
                i <= k < v.mutations.len() ==> #[trigger] store@.mutations[k] == v.mutations[k],
        decreases v.mutations.len() - i,
    {
        let m = before.mutation(i);
        let ghost row = v.mutations[i as int];
        let of_operation = text_is(&m.promotion_operation_id, operation_id)
            && m.mutation_type.is_promotion();
        let goal: Option<MutationState> = match m.state {
            MutationState::Pending | MutationState::Failed => {
                if of_operation {
                    Some(MutationState::Cancelled)
                } else if m.mutation_type.is_promotion() {
                    None
                } else {
                    proof {
                        lemma_filter_contains(v.mutations, undecodable());
                    }
                    match is_collateral(&before, operation_id, m) {
                        Some(true) => Some(MutationState::Cancelled),
                        _ => None,
                    }
                }
            },
            MutationState::Applying => {
                if of_operation {
                    Some(MutationState::Abandoned)
                } else {
                    None
                }
            },
            _ => None,
        };
        match goal {
            Some(to) => {
                proof {
                    assert(store@.mutations[i as int] == row);
                    lemma_place_of(store@, i as int);
                    assert(row.admitted());
                }
                match transition(
                    store,
                    TransitionRequest {
                        sequence: m.sequence,
                        from: m.state,
                        to,
                        failure: None,
                        now,
                    },
                ) {
                    Ok(()) => {},
                    Err(error) => {
                        proof {
                            assert(false);
                        }
                        return Err(error);
                    },
                }
            },
            None => {},
        }
        i = i + 1;
    }
    proof {
        assert(store@.mutations =~= cancelled(v, operation_id@, now@).mutations);
    }
    Ok(())
}

/// Withdraw the Promotion Operation that the Item's Promotion belongs to.
///
/// A pending or failed Promotion is cancelled; one whose creation was not
/// observed is abandoned. Both return their Item to Local, and every Mutation
/// that cannot resolve without the Items' prospective identities is cancelled
/// with them. A refusal withdraws nothing.
pub fn cancel_promotion(store: &mut Store, item_id: &str, now: &str) -> (r: Result<
    CancellationReport,
    CancelPromotionError,
>)
    requires
        old(store).wf(),
    ensures
        final(store).wf(),
        match r {
            Ok(report) => {
                let v = old(store)@;
                let operation_id = cancellable_operation(v, item_id@)->Ok_0;
                &&& cancel_refusal(v, item_id@) is None
                &&& final(store)@ == cancelled(v, operation_id, now@)
                &&& report.tells(v, operation_id)
            },
            Err(error) => cancel_refusal(old(store)@, item_id@) == Some(error@) && final(store)@
                == old(store)@,
        },
{
    let operation_id = match cancellable_operation_id(store, item_id) {
        Ok(operation_id) => operation_id,
        Err(error) => {
            return Err(error);
        },
    };
    let untried = places(store, &Pick::UntriedInOperation(operation_id.as_str()));
    let unobserved = places(store, &Pick::UnobservedInOperation(operation_id.as_str()));
    let accepted = places(store, &Pick::AppliedInOperation(operation_id.as_str()));
    proof {
        assert(picked(store@.mutations, untried@).len() == untried@.len());
        assert(picked(store@.mutations, unobserved@).len() == unobserved@.len());
    }
    if untried.len() == 0 && unobserved.len() == 0 {
        return Err(CancelPromotionError::NothingToWithdraw(operation_id));
    }
    match ensure_dependencies_representable(store, operation_id.as_str()) {
        Ok(()) => {},
        Err(error) => {
            return Err(error);
        },
    }
    let taken = match collateral_places(store, operation_id.as_str()) {
        Ok(taken) => taken,
        Err(error) => {
            return Err(error);
        },
    };
    let report = CancellationReport {
        cancelled_promotions: reported(store, &untried),
        abandoned_promotions: reported(store, &unobserved),
        applied_promotions: reported(store, &accepted),
        withdrawn: reported_collateral(store, operation_id.as_str(), &taken),
    };
    match withdraw(store, operation_id.as_str(), now) {
        Ok(()) => Ok(report),
        Err(_) => Err(CancelPromotionError::Storage(Fault::Check)),
    }
}

// ---- Laws ---------------------------------------------------------------

/// Once an operation is withdrawn, no Promotion of it awaits its outcome.
pub proof fn law_no_promotion_of_a_withdrawn_operation_is_left(
    v: StoreView,
    operation_id: Seq<char>,
    now: Seq<char>,
    id: Seq<char>,
)
    ensures
        !withdrawn(cancelled(v, operation_id, now), operation_id, id),
{
    let after = cancelled(v, operation_id, now);
    assert forall|i: int| 0 <= i < after.mutations.len() implies !((
    #[trigger] after.mutations[i]).item_id == id && after.mutations[i].promotion_operation_id
        == Some(operation_id) && after.mutations[i].mutation_type.promotes()
        && after.mutations[i].state.is_nonterminal()) by {
        assert(after.mutations[i] == after_cancellation(v, operation_id, v.mutations[i], now));
    }
}

/// A withdrawn Local Item without a Promotion in another operation is Local
/// afterwards.
pub proof fn law_a_withdrawn_item_is_local(
    v: StoreView,
    operation_id: Seq<char>,
    now: Seq<char>,
    id: Seq<char>,
)
    requires
        v.wf(),
        withdrawn(v, operation_id, id),
        v.item(id).origin == Origin::Local,
        forall|i: int|
            0 <= i < v.mutations.len() && (awaited_promotion_of(id))(#[trigger] v.mutations[i])
                ==> v.mutations[i].promotion_operation_id == Some(operation_id),
    ensures
        binding(cancelled(v, operation_id, now), id) == Ok::<BindingView, BindingFault>(
            BindingView::Local,
        ),
{
    let after = cancelled(v, operation_id, now);
    let k = choose|i: int|
        0 <= i < v.mutations.len() && (#[trigger] v.mutations[i]).item_id == id
            && v.mutations[i].promotion_operation_id == Some(operation_id)
            && v.mutations[i].mutation_type.promotes() && v.mutations[i].state.is_nonterminal();
    lemma_mutation_target(v, k);
    let cond = awaited_promotion_of(id);
    lemma_filter_contains(after.mutations, cond);
    if after.mutations.filter(cond).len() > 0 {
        let m = after.mutations.filter(cond)[0];
        assert(after.mutations.contains(m));
        let i = choose|i: int| 0 <= i < after.mutations.len() && after.mutations[i] == m;
        assert(after.mutations[i] == after_cancellation(v, operation_id, v.mutations[i], now));
        assert(cond(v.mutations[i]));
    }
}

/// A withdrawal changes Mutations alone, and of these only such as awaited
/// their outcome.
pub proof fn law_cancellation_touches_waiting_mutations_only(
    v: StoreView,
    operation_id: Seq<char>,
    now: Seq<char>,
    i: int,
)
    requires
        0 <= i < v.mutations.len(),
        !v.mutations[i].state.is_nonterminal(),
    ensures
        cancelled(v, operation_id, now).items == v.items,
        cancelled(v, operation_id, now).mutations.len() == v.mutations.len(),
        cancelled(v, operation_id, now).mutations[i] == v.mutations[i],
{
}

proof fn lemma_judged_elsewhere(
    v: StoreView,
    kind: Option<BackendKind>,
    operation_id: Seq<char>,
    pairs: Seq<(Seq<char>, Seq<char>)>,
)
    ensures
        judged(StoreView { remote_kind: kind, ..v }, operation_id, pairs) == judged(
            v,
            operation_id,
            pairs,
        ),
    decreases pairs.len(),
{
    let other = StoreView { remote_kind: kind, ..v };
    if pairs.len() > 0 {
        lemma_judged_elsewhere(v, kind, operation_id, pairs.drop_last());
        law_a_binding_ignores_the_remote(v, kind, pairs.last().0);
        law_a_binding_ignores_the_remote(v, kind, pairs.last().1);
        assert(binding_after(other, operation_id, pairs.last().0) == binding_after(
            v,
            operation_id,
            pairs.last().0,
        ));
        assert(binding_after(other, operation_id, pairs.last().1) == binding_after(
            v,
            operation_id,
            pairs.last().1,
        ));
    }
}

/// A withdrawal asks nothing of the Remote: whichever is configured, or none,
/// the same operations are refused and the same Mutations withdrawn.
pub proof fn law_cancellation_ignores_the_remote(
    v: StoreView,
    kind: Option<BackendKind>,
    id: Seq<char>,
    operation_id: Seq<char>,
    now: Seq<char>,
)
    ensures
        cancellable_operation(StoreView { remote_kind: kind, ..v }, id) == cancellable_operation(v, id),
        cancel_refusal(StoreView { remote_kind: kind, ..v }, id) == cancel_refusal(v, id),
        cancelled(StoreView { remote_kind: kind, ..v }, operation_id, now) == (StoreView {
            remote_kind: kind,
            ..cancelled(v, operation_id, now)
        }),
{
    let other = StoreView { remote_kind: kind, ..v };
    assert forall|op: Seq<char>, p: (Seq<char>, Seq<char>)| #[trigger]
        affected(other, op, p) == affected(v, op, p) by {}
    match cancellable_operation(v, id) {
        Ok(op) => {
            let ours = |p: (Seq<char>, Seq<char>)| affected(v, op, p);
            let theirs = |p: (Seq<char>, Seq<char>)| affected(other, op, p);
            assert(ours =~= theirs);
            assert(affected_pairs(other, op) == affected_pairs(v, op));
            lemma_judged_elsewhere(v, kind, op, affected_pairs(v, op));
        },
        Err(_) => {},
    }
    assert forall|m: MutationView| #[trigger]
        after_cancellation(other, operation_id, m, now) == after_cancellation(
            v,
            operation_id,
            m,
            now,
        ) by {
        assert((collateral(other, operation_id))(m) == (collateral(v, operation_id))(m));
    }
    assert(cancelled(other, operation_id, now).mutations =~= cancelled(v, operation_id, now).mutations);
}

} // verus!
