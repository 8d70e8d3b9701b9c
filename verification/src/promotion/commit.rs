//! The commit of a planned Promotion to the outbox.

use vstd::prelude::*;

use crate::domain::{BackendKind, ItemClass, MutationType};
use crate::mutations::{append, appended, AppendError, AppendRequest, AppendView};
use crate::payload::{json_object, MutationPayload};
use crate::repository::create::{generate_internal_id, is_internal_id};
use crate::sync::{
    configured_remote_kind, ensure_backend_cohort, retained_elsewhere, BackendCohortError,
};
use crate::rows::MutationView;
use crate::sequences::next_of;
use crate::tables::{mutation_place, Counter, Store, StoreView};

verus! {

/// One Mutation that a plan asks for.
#[derive(Clone, Debug, PartialEq, Eq)]
pub struct MutationDraft {
    pub mutation_type: MutationType,
    pub item_id: String,
    pub item_class: ItemClass,
    pub payload: MutationPayload,
}

impl MutationDraft {
    /// What the draft asks the outbox to append.
    pub open spec fn request(&self, operation_id: Seq<char>, now: Seq<char>) -> AppendView {
        AppendView {
            mutation_type: self.mutation_type,
            item_id: self.item_id@,
            item_class: self.item_class,
            payload: json_object(self.payload.pairs()),
            operation: Some(operation_id),
            now,
        }
    }
}

/// The Mutations of one Promotion, in the order they are to be applied.
#[derive(Clone, Debug, PartialEq, Eq)]
pub struct PromotionPlan {
    pub mutations: Vec<MutationDraft>,
}

impl PromotionPlan {
    /// Whether the plan asks for nothing.
    pub fn is_empty(&self) -> (r: bool)
        ensures
            r == (self.mutations@.len() == 0),
    {
        self.mutations.len() == 0
    }
}

impl Default for PromotionPlan {
    fn default() -> (r: Self)
        ensures
            r.mutations@.len() == 0,
    {
        PromotionPlan { mutations: Vec::new() }
    }
}

/// Why a plan was not committed.
#[derive(Debug)]
pub enum CommitPlanError {
    /// A draft was not appended.
    Append(AppendError),
    BackendCohort(BackendCohortError),
    /// The configured Remote is not the one the plan was made for.
    RemoteChanged { expected: BackendKind, actual: Option<BackendKind> },
}

/// The store with every draft appended in order, or why one is not.
pub open spec fn drafts_appended(
    v: StoreView,
    drafts: Seq<MutationDraft>,
    operation_id: Seq<char>,
    now: Seq<char>,
) -> Result<StoreView, AppendError>
    decreases drafts.len(),
{
    if drafts.len() == 0 {
        Ok(v)
    } else {
        match drafts_appended(v, drafts.drop_last(), operation_id, now) {
            Err(error) => Err(error),
            Ok(before) => appended(before, drafts.last().request(operation_id, now)),
        }
    }
}

/// The store with a plan committed as one Promotion Operation, or why it is
/// not.
pub open spec fn committed(
    v: StoreView,
    drafts: Seq<MutationDraft>,
    expected: BackendKind,
    operation_id: Seq<char>,
    now: Seq<char>,
) -> Result<StoreView, CommitPlanError> {
    if v.remote_kind != Some(expected) {
        Err(CommitPlanError::RemoteChanged { expected, actual: v.remote_kind })
    } else {
        match retained_elsewhere(v, expected) {
            Some(retained) => Err(
                CommitPlanError::BackendCohort(
                    BackendCohortError::BackendKindMismatch { expected, retained },
                ),
            ),
            None => match drafts_appended(v, drafts, operation_id, now) {
                Ok(after) => Ok(after),
                Err(error) => Err(CommitPlanError::Append(error)),
            },
        }
    }
}

/// Whether a plan is not committed for the reason, whatever the identity of its
/// Promotion Operation.
pub open spec fn never_committed(
    v: StoreView,
    drafts: Seq<MutationDraft>,
    expected: BackendKind,
    now: Seq<char>,
    error: CommitPlanError,
) -> bool {
    forall|operation_id: Seq<char>| #[trigger]
        committed(v, drafts, expected, operation_id, now) == Err::<StoreView, CommitPlanError>(
            error,
        )
}

/// What failed for some of the drafts fails for all of them.
proof fn lemma_drafts_fail(
    v: StoreView,
    drafts: Seq<MutationDraft>,
    n: int,
    operation_id: Seq<char>,
    now: Seq<char>,
)
    requires
        0 <= n <= drafts.len(),
        drafts_appended(v, drafts.take(n), operation_id, now) is Err,
    ensures
        drafts_appended(v, drafts, operation_id, now) == drafts_appended(
            v,
            drafts.take(n),
            operation_id,
            now,
        ),
    decreases drafts.len() - n,
{
    if n < drafts.len() {
        assert(drafts.take(n + 1).drop_last() =~= drafts.take(n));
        lemma_drafts_fail(v, drafts, n + 1, operation_id, now);
    } else {
        assert(drafts.take(n) =~= drafts);
    }
}

/// Whether two stores differ at most in what their Mutations carry.
spec fn alike(a: StoreView, b: StoreView) -> bool {
    &&& a.items == b.items
    &&& a.mutation_seq == b.mutation_seq
    &&& a.mutations.len() == b.mutations.len()
    &&& forall|i: int|
        0 <= i < a.mutations.len() ==> (#[trigger] a.mutations[i]).sequence
            == b.mutations[i].sequence
}

proof fn lemma_places_alike(a: Seq<MutationView>, b: Seq<MutationView>, sequence: int)
    requires
        a.len() == b.len(),
        forall|i: int| 0 <= i < a.len() ==> (#[trigger] a[i]).sequence == b[i].sequence,
    ensures
        mutation_place(a, sequence) == mutation_place(b, sequence),
        0 <= mutation_place(a, sequence) <= a.len(),
    decreases a.len(),
{
    if a.len() > 0 {
        assert(a.last() == a[a.len() - 1]);
        assert forall|i: int| 0 <= i < a.len() - 1 implies (#[trigger] a.drop_last()[i]).sequence
            == b.drop_last()[i].sequence by {
            assert(a.drop_last()[i] == a[i]);
        }
        lemma_places_alike(a.drop_last(), b.drop_last(), sequence);
    }
}

/// Whether drafts can be appended does not hang on the operation's identity.
proof fn lemma_drafts_alike(
    v: StoreView,
    drafts: Seq<MutationDraft>,
    one: Seq<char>,
    other: Seq<char>,
    now: Seq<char>,
)
    ensures
        match (drafts_appended(v, drafts, one, now), drafts_appended(v, drafts, other, now)) {
            (Ok(a), Ok(b)) => alike(a, b),
            (Err(a), Err(b)) => a == b,
            _ => false,
        },
    decreases drafts.len(),
{
    if drafts.len() > 0 {
        lemma_drafts_alike(v, drafts.drop_last(), one, other, now);
        if drafts_appended(v, drafts.drop_last(), one, now) is Ok {
            let a = drafts_appended(v, drafts.drop_last(), one, now)->Ok_0;
            let b = drafts_appended(v, drafts.drop_last(), other, now)->Ok_0;
            if next_of(a, Counter::Mutation) is Ok {
                let sequence = next_of(a, Counter::Mutation)->Ok_0;
                lemma_places_alike(a.mutations, b.mutations, sequence);
                assert(a.has_mutation(sequence) == b.has_mutation(sequence)) by {
                    if a.has_mutation(sequence) {
                        let i = choose|i: int|
                            0 <= i < a.mutations.len() && (#[trigger] a.mutations[i]).sequence
                                == sequence;
                        assert(b.mutations[i].sequence == sequence);
                    }
                    if b.has_mutation(sequence) {
                        let i = choose|i: int|
                            0 <= i < b.mutations.len() && (#[trigger] b.mutations[i]).sequence
                                == sequence;
                        assert(a.mutations[i].sequence == sequence);
                    }
                }
            }
        }
    }
}

/// Commit a plan as the Promotion Operation of the given identity.
///
/// Nothing is appended where any draft cannot be.
pub fn commit_operation(
    store: &mut Store,
    plan: &PromotionPlan,
    expected_kind: BackendKind,
    operation_id: &str,
    now: &str,
) -> (r: Result<(), CommitPlanError>)
    requires
        old(store).wf(),
    ensures
        final(store).wf(),
        match r {
            Ok(()) => committed(
                old(store)@,
                plan.mutations@,
                expected_kind,
                operation_id@,
                now@,
            ) == Ok::<StoreView, CommitPlanError>(final(store)@),
            Err(error) => {
                &&& committed(
                    old(store)@,
                    plan.mutations@,
                    expected_kind,
                    operation_id@,
                    now@,
                ) == Err::<StoreView, CommitPlanError>(error)
                &&& final(store)@ == old(store)@
            },
        },
{
    let actual = configured_remote_kind(store);
    let same = match actual {
        Some(kind) => kind == expected_kind,
        None => false,
    };
    if !same {
        return Err(CommitPlanError::RemoteChanged { expected: expected_kind, actual });
    }
    match ensure_backend_cohort(store, expected_kind) {
        Ok(()) => {},
        Err(error) => {
            return Err(CommitPlanError::BackendCohort(error));
        },
    }
    let mut work = store.copy();
    let mut i: usize = 0;
    proof {
        assert(plan.mutations@.take(0).len() == 0);
    }
    while i < plan.mutations.len()
        invariant
            0 <= i <= plan.mutations@.len(),
            work.wf(),
            store@ == old(store)@,
            old(store).wf(),
            old(store)@.remote_kind == Some(expected_kind),
            retained_elsewhere(old(store)@, expected_kind) is None,
            drafts_appended(old(store)@, plan.mutations@.take(i as int), operation_id@, now@)
                == Ok::<StoreView, AppendError>(work@),
        decreases plan.mutations@.len() - i,
    {
        let draft = &plan.mutations[i];
        let ghost head = plan.mutations@.take(i + 1);
        proof {
            assert(head.drop_last() =~= plan.mutations@.take(i as int));
            assert(head.last() == plan.mutations@[i as int]);
        }
        let done = append(
            &mut work,
            AppendRequest {
                mutation_type: draft.mutation_type,
                item_id: draft.item_id.as_str(),
                item_class: draft.item_class,
                payload: &draft.payload,
                promotion_operation_id: Some(operation_id),
                now_iso: now,
            },
        );
        match done {
            Ok(_) => {},
            Err(error) => {
                proof {
                    lemma_drafts_fail(
                        old(store)@,
                        plan.mutations@,
                        i + 1,
                        operation_id@,
                        now@,
                    );
                }
                return Err(CommitPlanError::Append(error));
            },
        }
        i = i + 1;
    }
    proof {
        assert(plan.mutations@.take(i as int) =~= plan.mutations@);
    }
    *store = work;
    Ok(())
}

/// Commit a plan to the outbox as one Promotion Operation.
///
/// Mints one Promotion Operation identity and stamps every appended Mutation
/// with it. An empty plan appends nothing and mints no identity.
pub fn commit_plan(
    store: &mut Store,
    plan: &PromotionPlan,
    expected_kind: BackendKind,
    rng: &mut rand::rngs::StdRng,
    now: &str,
) -> (r: Result<Option<String>, CommitPlanError>)
    requires
        old(store).wf(),
    ensures
        final(store).wf(),
        match r {
            Ok(None) => plan.mutations@.len() == 0 && final(store)@ == old(store)@,
            Ok(Some(operation_id)) => {
                &&& plan.mutations@.len() > 0
                &&& is_internal_id(operation_id@)
                &&& committed(
                    old(store)@,
                    plan.mutations@,
                    expected_kind,
                    operation_id@,
                    now@,
                ) == Ok::<StoreView, CommitPlanError>(final(store)@)
            },
            Err(error) => {
                &&& plan.mutations@.len() > 0
                &&& final(store)@ == old(store)@
                &&& never_committed(old(store)@, plan.mutations@, expected_kind, now@, error)
            },
        },
{
    if plan.is_empty() {
        return Ok(None);
    }
    let operation_id = generate_internal_id(rng);
    match commit_operation(store, plan, expected_kind, operation_id.as_str(), now) {
        Ok(()) => Ok(Some(operation_id)),
        Err(error) => {
            proof {
                assert forall|other: Seq<char>| #[trigger]
                    committed(
                        old(store)@,
                        plan.mutations@,
                        expected_kind,
                        other,
                        now@,
                    ) == Err::<StoreView, CommitPlanError>(error) by {
                    lemma_drafts_alike(
                        old(store)@,
                        plan.mutations@,
                        operation_id@,
                        other,
                        now@,
                    );
                }
            }
            Err(error)
        },
    }
}

} // verus!
