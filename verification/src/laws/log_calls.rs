//! What the calls that go through the log leave behind and answer.

use vstd::prelude::*;

use crate::domain::{
    BackendKind, DependencyClassification, DependencyRejection, MutationState, MutationType, Origin,
};
use crate::graph::connected;
use crate::laws::dependencies::{
    is_done, is_there, law_what_adding_a_dependency_writes, law_what_removing_a_dependency_writes,
    law_when_a_dependency_is_refused, law_when_removing_a_dependency_is_refused, meaning_is,
    waits_for,
};
use crate::laws::facts::{
    fresh_row, in_queue, items_kept_but, lemma_row, log_grew, log_kept, log_open, unsettled,
    unused_name,
};
use crate::laws::log::{
    is_of_class, is_used, keeps_evidence, law_a_store_keeps_to_one_backend,
    law_an_appended_mutation_waits, law_what_a_move_writes, law_what_applying_writes,
    law_when_a_mutation_is_appended, law_which_moves_are_refused, may_be, may_go, needs_evidence,
};
use crate::laws::promotion::{
    describes, is_queued, key_used, law_what_a_commit_queues, law_what_a_confirmed_identity_writes,
    law_what_a_receipt_writes, law_what_a_retry_writes, law_when_a_commit_is_refused,
    law_when_a_receipt_is_refused, law_which_promotion_is_recovered, only_promotion, retried_at,
    waits_its_turn,
};
use crate::laws::withdrawal::{
    ended, is_taken, is_told_taken, law_what_a_withdrawal_reports, law_what_a_withdrawal_writes,
    law_which_operation_is_withdrawn, loses_its_ground, promotes_for, promotes_item, tells_all,
};
use crate::mutations::{
    append, mark_applied, transition, AppendError, AppendRequest, TransitionError,
    TransitionRequest,
};
use crate::payload::json_object;
use crate::promotion::cancel::{
    cancel_promotion, cancellable_operation, CancelPromotionError, CancellationReport,
};
use crate::promotion::commit::{commit_operation, commit_plan, CommitPlanError, PromotionPlan};
use crate::promotion::receipt::{apply_receipt, ApplyReceiptError, BackendItemIdentity};
use crate::promotion::recovery::{
    reconcile_promotion, recoverable_promotion, retry_promotion, RecoveryPromotion,
    RecoveryPromotionError,
};
use crate::repository::dependency::{
    add_dependency, remove_dependency, AddDependencyError, DependencyEdge, RemoveDependencyError,
};
use crate::rows::{opt_str, DependencyView, MutationView};
use crate::sync::{ensure_backend_cohort, BackendCohortError};
use crate::tables::{waits, Store, StoreView};

verus! {

/// Adding a Dependency makes it be there, once, and tells the Backend that both
/// ends are bound for, if they are; every refusal says what stands against it
/// and changes nothing.
pub proof fn law_adding_a_dependency(
    store: &mut Store,
    now: &str,
    edge: DependencyEdge<'_>,
    r: Result<(), AddDependencyError>,
)
    requires
        old(store).wf(),
        call_ensures(add_dependency, (store, now, edge), r),
    ensures
        ({
            let v = old(store)@;
            let after = final(store)@;
            let blocked = edge.blocked_id@;
            let blocking = edge.blocking_id@;
            let there = is_there(v, blocked) && is_there(v, blocking);
            let known = waits_for(v, blocked, blocking);
            let shared = meaning_is(
                v,
                blocked,
                blocking,
                DependencyClassification::BecomesBackendIntent,
            );
            &&& match r {
                Ok(()) => {
                    &&& there && !is_done(v, blocked) && !is_done(v, blocking)
                    &&& !connected(waits(v.dependencies), blocking, blocked)
                    &&& waits_for(after, blocked, blocking)
                    &&& known ==> after == v
                    &&& !known ==> after.dependencies == v.dependencies.push(
                        DependencyView {
                            blocked_id: blocked,
                            blocking_id: blocking,
                            created_at: now@,
                        },
                    )
                    &&& !known && !shared ==> log_kept(v, after)
                    &&& !known && shared ==> log_grew(
                        v,
                        after,
                        fresh_row(
                            v.mutation_seq->0 + 1,
                            MutationType::AddDependency,
                            v.item(blocked),
                            json_object(seq![("blocking_id"@, blocking)]),
                            now@,
                        ),
                    )
                    &&& after == StoreView {
                        dependencies: after.dependencies,
                        mutations: after.mutations,
                        mutation_seq: after.mutation_seq,
                        ..v
                    }
                },
                Err(error) => after == v && match error {
                    AddDependencyError::EndpointMissing => !there,
                    AddDependencyError::BlockedDone => there && is_done(v, blocked),
                    AddDependencyError::BlockingDone => there && is_done(v, blocking) && !is_done(
                        v,
                        blocked,
                    ),
                    AddDependencyError::Cycle => there && connected(
                        waits(v.dependencies),
                        blocking,
                        blocked,
                    ),
                    AddDependencyError::BackendBlockedLocalBlocking => meaning_is(
                        v,
                        blocked,
                        blocking,
                        DependencyClassification::Rejected(
                            DependencyRejection::BackendBlockedLocalBlocking,
                        ),
                    ),
                    AddDependencyError::BackendKindMismatch => meaning_is(
                        v,
                        blocked,
                        blocking,
                        DependencyClassification::Rejected(
                            DependencyRejection::BackendKindMismatch,
                        ),
                    ),
                    AddDependencyError::BackendBinding(_) => there,
                    AddDependencyError::Mutation(_) => shared && !known && !log_open(v),
                },
            }
        }),
{
    let v = old(store)@;
    law_when_a_dependency_is_refused(v, edge.blocked_id@, edge.blocking_id@, now@);
    if r is Ok {
        law_what_adding_a_dependency_writes(v, edge.blocked_id@, edge.blocking_id@, now@);
    }
}

/// Removing a Dependency makes it not be there, and tells the Backend that both
/// ends are bound for, if they are and it was there; the other Dependencies
/// stay.
pub proof fn law_removing_a_dependency(
    store: &mut Store,
    now: &str,
    edge: DependencyEdge<'_>,
    r: Result<(), RemoveDependencyError>,
)
    requires
        old(store).wf(),
        call_ensures(remove_dependency, (store, now, edge), r),
    ensures
        ({
            let v = old(store)@;
            let after = final(store)@;
            let blocked = edge.blocked_id@;
            let blocking = edge.blocking_id@;
            let known = waits_for(v, blocked, blocking);
            let shared = meaning_is(
                v,
                blocked,
                blocking,
                DependencyClassification::BecomesBackendIntent,
            );
            &&& r is Err ==> after == v
            &&& r is Ok ==> is_there(v, blocked) && is_there(v, blocking)
            &&& r is Ok ==> !waits_for(after, blocked, blocking)
            &&& r is Ok && !known ==> after == v
            &&& r is Ok && known ==> exists|d: int|
                0 <= d < v.dependencies.len() && (#[trigger] v.dependencies[d]).blocked_id
                    == blocked && v.dependencies[d].blocking_id == blocking && after.dependencies
                    == v.dependencies.remove(d)
            &&& r is Ok && known && !shared ==> log_kept(v, after)
            &&& r is Ok && known && shared ==> log_grew(
                v,
                after,
                fresh_row(
                    v.mutation_seq->0 + 1,
                    MutationType::RemoveDependency,
                    v.item(blocked),
                    json_object(seq![("blocking_id"@, blocking)]),
                    now@,
                ),
            )
            &&& r matches Err(RemoveDependencyError::EndpointMissing) ==> !(is_there(v, blocked)
                && is_there(v, blocking))
        }),
{
    let v = old(store)@;
    law_when_removing_a_dependency_is_refused(v, edge.blocked_id@, edge.blocking_id@, now@);
    if r is Ok {
        law_what_removing_a_dependency_writes(v, edge.blocked_id@, edge.blocking_id@, now@);
    }
}

/// What is appended is one pending Mutation, as asked for, under the sequence
/// that is answered; it is where the log is open and the Item is there.
pub proof fn law_appending(store: &mut Store, request: AppendRequest<'_>, r: Result<i64, AppendError>)
    requires
        old(store).wf(),
        call_ensures(append, (store, request), r),
    ensures
        ({
            let v = old(store)@;
            let after = final(store)@;
            &&& (r is Ok) == (log_open(v) && is_of_class(v, request.item_id@, request.item_class))
            &&& r is Err ==> after == v
            &&& r is Ok ==> after == StoreView {
                mutations: after.mutations,
                mutation_seq: after.mutation_seq,
                ..v
            } && log_grew(
                v,
                after,
                MutationView {
                    sequence: r->Ok_0 as int,
                    mutation_type: request.mutation_type,
                    item_id: request.item_id@,
                    item_class: request.item_class,
                    payload_json: json_object(request.payload.pairs()),
                    state: MutationState::Pending,
                    failure_json: None,
                    created_at: request.now_iso@,
                    state_changed_at: request.now_iso@,
                    promotion_operation_id: opt_str(request.promotion_operation_id),
                },
            )
        }),
{
    let v = old(store)@;
    law_when_a_mutation_is_appended(v, request@);
    if r is Ok {
        law_an_appended_mutation_waits(v, request@);
    }
}

/// A Mutation moves where it is in the state named, may go, says what went
/// wrong where it must, and can be there; and then it alone is changed.
pub proof fn law_moving(
    store: &mut Store,
    request: TransitionRequest<'_>,
    r: Result<(), TransitionError>,
    i: int,
)
    requires
        old(store).wf(),
        0 <= i < old(store)@.mutations.len(),
        call_ensures(transition, (store, request), r),
    ensures
        ({
            let v = old(store)@;
            let after = final(store)@;
            let m = v.mutations[i];
            &&& r is Err ==> after == v
            &&& m.sequence == request.sequence ==> ((r is Ok) == (m.state == request.from && may_go(
                request.from,
                request.to,
            ) && may_be(m, request.to) && (needs_evidence(request.from, request.to)
                ==> request.failure is Some)))
            &&& r is Ok ==> after == StoreView { mutations: after.mutations, ..v }
                && after.mutations.len() == v.mutations.len()
            &&& r is Ok && m.sequence != request.sequence ==> after.mutations[i] == m
            &&& r is Ok && m.sequence == request.sequence ==> after.mutations[i] == MutationView {
                state: request.to,
                state_changed_at: request.now@,
                failure_json: if keeps_evidence(request.to) {
                    m.failure_json
                } else if needs_evidence(request.from, request.to) {
                    opt_str(request.failure)
                } else {
                    None
                },
                ..m
            }
        }),
{
    let v = old(store)@;
    if v.mutations[i].sequence == request.sequence {
        law_which_moves_are_refused(
            v,
            request.sequence,
            request.from,
            request.to,
            opt_str(request.failure),
            request.now@,
            i,
        );
    }
    if r is Ok {
        law_what_a_move_writes(
            v,
            request.sequence,
            request.from,
            request.to,
            opt_str(request.failure),
            request.now@,
            i,
        );
    }
}

/// Marking a Mutation applied settles it, forgets what went wrong, and takes the
/// Sync Cursor up to it and never back.
pub proof fn law_applying(
    store: &mut Store,
    sequence: i64,
    from: MutationState,
    now: &str,
    r: Result<(), TransitionError>,
    i: int,
)
    requires
        old(store).wf(),
        0 <= i < old(store)@.mutations.len(),
        old(store)@.mutations[i].sequence == sequence,
        call_ensures(mark_applied, (store, sequence, from, now), r),
    ensures
        ({
            let v = old(store)@;
            let after = final(store)@;
            &&& (r is Ok) == (unsettled(from) && v.mutations[i].state == from)
            &&& r is Err ==> after == v
            &&& r is Ok ==> after == StoreView {
                mutations: after.mutations,
                cursor: after.cursor,
                ..v
            } && after.mutations[i] == MutationView {
                state: MutationState::Applied,
                state_changed_at: now@,
                failure_json: None,
                ..v.mutations[i]
            }
            &&& r is Ok && v.cursor is Some ==> after.cursor is Some
                && after.cursor->0.last_applied_sequence >= sequence
                && after.cursor->0.last_applied_sequence >= v.cursor->0.last_applied_sequence
        }),
{
    law_what_applying_writes(old(store)@, sequence, from, now@, i);
}

/// A withdrawal that is granted takes the operation of a Promotion of the Item.
/// After it no Promotion of the operation is unsettled, and nothing waits that
/// concerns an Item that lost its Promotion, whichever operation it carries, or
/// none. Everything else stays, and the report names what was taken. A refusal
/// changes nothing.
pub proof fn law_withdrawing(
    store: &mut Store,
    item_id: &str,
    now: &str,
    r: Result<CancellationReport, CancelPromotionError>,
)
    requires
        old(store).wf(),
        call_ensures(cancel_promotion, (store, item_id, now), r),
    ensures
        r is Err ==> final(store)@ == old(store)@,
        r is Ok ==> exists|operation_id: Seq<char>| #[trigger]
            withdrew(old(store)@, final(store)@, item_id@, operation_id, now@) && reported(
                old(store)@,
                operation_id,
                r->Ok_0,
            ),
{
    if r is Ok {
        let v = old(store)@;
        let operation_id = cancellable_operation(v, item_id@)->Ok_0;
        law_which_operation_is_withdrawn(v, item_id@);
        law_what_a_withdrawal_reports(v, operation_id, r->Ok_0);
        lemma_withdrew(v, item_id@, operation_id, now@);
        assert(withdrew(v, final(store)@, item_id@, operation_id, now@));
    }
}

/// Whether the operation was withdrawn: its open Promotions are cancelled, or
/// abandoned where one was under way, and what waited for an Item that lost its
/// Promotion is cancelled; nothing else changed.
pub open spec fn withdrew(
    v: StoreView,
    after: StoreView,
    item_id: Seq<char>,
    operation_id: Seq<char>,
    now: Seq<char>,
) -> bool {
    &&& exists|i: int|
        0 <= i < v.mutations.len() && promotes_item(#[trigger] v.mutations[i], item_id)
            && v.mutations[i].promotion_operation_id == Some(operation_id)
    &&& after == StoreView { mutations: after.mutations, ..v }
    &&& after.mutations.len() == v.mutations.len()
    &&& forall|i: int|
        0 <= i < v.mutations.len() ==> became(
            v,
            operation_id,
            #[trigger] v.mutations[i],
            after.mutations[i],
            now,
        )
}

/// What becomes of a Mutation when the operation is withdrawn.
pub open spec fn became(
    v: StoreView,
    operation_id: Seq<char>,
    m: MutationView,
    n: MutationView,
    now: Seq<char>,
) -> bool {
    if promotes_for(m, operation_id) && m.state == MutationState::Applying {
        n == ended(m, MutationState::Abandoned, now)
    } else if (promotes_for(m, operation_id) && in_queue(m.state)) || loses_its_ground(
        v,
        operation_id,
        m,
    ) {
        n == ended(m, MutationState::Cancelled, now)
    } else {
        n == m
    }
}

/// Whether the report names each Promotion of the operation by what became of
/// it, and every Mutation taken along, and none besides.
pub open spec fn reported(
    v: StoreView,
    operation_id: Seq<char>,
    report: CancellationReport,
) -> bool {
    &&& tells_all(
        report.cancelled_promotions@,
        v,
        operation_id,
        set![MutationState::Pending, MutationState::Failed],
    )
    &&& tells_all(report.abandoned_promotions@, v, operation_id, set![MutationState::Applying])
    &&& tells_all(report.applied_promotions@, v, operation_id, set![MutationState::Applied])
    &&& forall|i: int|
        0 <= i < v.mutations.len() && loses_its_ground(v, operation_id, #[trigger] v.mutations[i])
            ==> is_told_taken(report.withdrawn@, v, operation_id, v.mutations[i])
    &&& forall|k: int|
        0 <= k < report.withdrawn@.len() ==> is_taken(
            #[trigger] report.withdrawn@[k],
            v,
            operation_id,
        )
}

proof fn lemma_withdrew(v: StoreView, item_id: Seq<char>, operation_id: Seq<char>, now: Seq<char>)
    requires
        exists|i: int|
            0 <= i < v.mutations.len() && promotes_item(#[trigger] v.mutations[i], item_id)
                && v.mutations[i].promotion_operation_id == Some(operation_id),
    ensures
        withdrew(
            v,
            crate::promotion::cancel::cancelled(v, operation_id, now),
            item_id,
            operation_id,
            now,
        ),
{
    let after = crate::promotion::cancel::cancelled(v, operation_id, now);
    assert forall|i: int| 0 <= i < v.mutations.len() implies became(
        v,
        operation_id,
        #[trigger] v.mutations[i],
        after.mutations[i],
        now,
    ) by {
        law_what_a_withdrawal_writes(v, operation_id, now, i);
    }
}

/// A plan is committed as one operation: all its Mutations in order, or none.
/// It is refused where the Remote is not the one that it was made for, or where
/// the store is in use with another.
pub proof fn law_committing(
    store: &mut Store,
    plan: &PromotionPlan,
    expected: BackendKind,
    operation_id: &str,
    now: &str,
    r: Result<(), CommitPlanError>,
)
    requires
        old(store).wf(),
        call_ensures(commit_operation, (store, plan, expected, operation_id, now), r),
    ensures
        ({
            let v = old(store)@;
            let after = final(store)@;
            &&& r is Err ==> after == v
            &&& v.remote_kind != Some(expected) ==> r == Err::<(), CommitPlanError>(
                CommitPlanError::RemoteChanged { expected, actual: v.remote_kind },
            )
            &&& forall|kind: BackendKind|
                kind != expected && #[trigger] is_used(v, kind) ==> r is Err
            &&& r is Ok ==> {
                &&& after == StoreView {
                    mutations: after.mutations,
                    mutation_seq: after.mutation_seq,
                    ..v
                }
                &&& after.mutations.len() == v.mutations.len() + plan.mutations@.len()
                &&& forall|m: MutationView|
                    v.mutations.contains(m) ==> #[trigger] after.mutations.contains(m)
                &&& forall|k: int|
                    0 <= k < plan.mutations@.len() ==> is_queued(
                        after,
                        #[trigger] plan.mutations@[k],
                        v.mutation_seq->0 + 1 + k,
                        operation_id@,
                        now@,
                    )
            }
        }),
{
    let v = old(store)@;
    law_when_a_commit_is_refused(v, plan.mutations@, expected, operation_id@, now@);
    if r is Ok {
        law_what_a_commit_queues(v, plan.mutations@, expected, operation_id@, now@);
    }
}

/// A receipt makes a Local Item one of the Backend, under the identity that it
/// brings, and keeps the Display ID it had as an Alias. It is refused for an
/// Item that is not Local and for names and keys that are not free.
pub proof fn law_taking_a_receipt(
    store: &mut Store,
    id: &str,
    backend_kind: &str,
    receipt: &BackendItemIdentity,
    now: &str,
    r: Result<(), ApplyReceiptError>,
)
    requires
        old(store).wf(),
        call_ensures(apply_receipt, (store, id, backend_kind, receipt, now), r),
    ensures
        ({
            let v = old(store)@;
            let after = final(store)@;
            let item = after.item(id@);
            &&& r is Err ==> after == v
            &&& (r is Ok) == (is_there(v, id@) && v.item(id@).origin == Origin::Local
                && unused_name(v, receipt.display_id@) && !key_used(
                v,
                id@,
                backend_kind@,
                receipt.backend_key@,
            ))
            &&& r is Ok ==> {
                &&& item.origin == Origin::Backend
                &&& item.backend_kind == Some(backend_kind@)
                &&& item.backend_key == Some(receipt.backend_key@)
                &&& item.display_id == receipt.display_id@
                &&& item.local_display_id == Some(v.item(id@).display_id)
                &&& item.title == v.item(id@).title
                &&& item.body == v.item(id@).body
                &&& item.lifecycle == v.item(id@).lifecycle
                &&& items_kept_but(v, after, id@)
                &&& after.aliases.len() == v.aliases.len() + 1
                &&& after.aliases.last().value == v.item(id@).display_id
                &&& after.aliases.last().item_id == id@
                &&& after.mutations == v.mutations
            }
        }),
{
    let v = old(store)@;
    law_when_a_receipt_is_refused(
        v,
        id@,
        backend_kind@,
        receipt.backend_key@,
        receipt.display_id@,
        now@,
    );
    if v.has(id@) {
        lemma_row(v, id@);
        assert(v.items[v.at(id@)].id == id@);
    }
    if r is Ok {
        law_what_a_receipt_writes(
            v,
            id@,
            backend_kind@,
            receipt.backend_key@,
            receipt.display_id@,
            now@,
        );
    }
}

/// What is recovered is the Item's one unsettled Promotion.
pub proof fn law_recovering(
    store: &Store,
    id: &str,
    r: Result<RecoveryPromotion, RecoveryPromotionError>,
)
    requires
        store.wf(),
        call_ensures(recoverable_promotion, (store, id), r),
    ensures
        r is Ok ==> exists|i: int| #[trigger]
            only_promotion(store@, id@, i) && describes(
                r->Ok_0@,
                store@,
                id@,
                store@.mutations[i],
            ),
{
    law_which_promotion_is_recovered(store@, id@);
}

/// A retry takes the one unsettled Promotion of the Item, in its turn, from
/// under way back to pending, and changes nothing else.
pub proof fn law_retrying(
    store: &mut Store,
    target: &RecoveryPromotion,
    now: &str,
    r: Result<(), RecoveryPromotionError>,
)
    requires
        old(store).wf(),
        call_ensures(retry_promotion, (store, target, now), r),
    ensures
        r is Err ==> final(store)@ == old(store)@,
        r is Ok ==> !waits_its_turn(old(store)@, target.sequence as int) && final(store)@
            == (StoreView { mutations: final(store)@.mutations, ..old(store)@ }) && exists|i: int|
            #[trigger]
            only_promotion(old(store)@, target.item_id@, i) && retried_at(
                old(store)@,
                final(store)@,
                i,
                target.sequence as int,
                now@,
            ),
{
    law_what_a_retry_writes(old(store)@, target.item_id@, target.sequence, now@);
}

/// A confirmed identity makes the Item one of the Backend and settles its
/// Promotion; an update is queued behind exactly where convergence is forced.
pub proof fn law_reconciling(
    store: &mut Store,
    target: &RecoveryPromotion,
    identity: &BackendItemIdentity,
    force_convergence: bool,
    now: &str,
    r: Result<(), RecoveryPromotionError>,
)
    requires
        old(store).wf(),
        call_ensures(reconcile_promotion, (store, target, identity, force_convergence, now), r),
    ensures
        ({
            let v = old(store)@;
            let after = final(store)@;
            let id = target.item_id@;
            let item = after.item(id);
            &&& r is Err ==> after == v
            &&& r is Ok ==> {
                &&& item.origin == Origin::Backend
                &&& item.backend_key == Some(identity.backend_key@)
                &&& item.display_id == identity.display_id@
                &&& item.title == v.item(id).title
                &&& items_kept_but(v, after, id)
                &&& after.mutations.len() == v.mutations.len() + (if force_convergence {
                    1int
                } else {
                    0int
                })
                &&& forall|m: MutationView|
                    #![trigger v.mutations.contains(m)]
                    v.mutations.contains(m) && m.sequence == target.sequence
                        ==> after.mutations.contains(
                        MutationView {
                            state: MutationState::Applied,
                            state_changed_at: now@,
                            failure_json: None,
                            ..m
                        },
                    )
                &&& forall|m: MutationView|
                    v.mutations.contains(m) && m.sequence != target.sequence
                        ==> #[trigger] after.mutations.contains(m)
            }
        }),
{
    if r is Ok {
        law_what_a_confirmed_identity_writes(
            old(store)@,
            target.item_id@,
            target.sequence,
            identity.backend_key@,
            identity.display_id@,
            force_convergence,
            now@,
        );
    }
}

/// A Backend is refused exactly where the other is in use.
pub proof fn law_keeping_to_one_backend(
    store: &Store,
    expected: BackendKind,
    r: Result<(), BackendCohortError>,
)
    requires
        call_ensures(ensure_backend_cohort, (store, expected), r),
    ensures
        (r is Err) == (exists|kind: BackendKind|
            kind != expected && #[trigger] is_used(store@, kind)),
{
    law_a_store_keeps_to_one_backend(store@, expected);
}

/// A plan that asks for nothing changes nothing and draws no operation; every
/// other is committed as one operation under an ID drawn for it, or not at all.
pub proof fn law_committing_under_a_drawn_id(
    store: &mut Store,
    plan: &PromotionPlan,
    expected: BackendKind,
    rng: &mut rand::rngs::StdRng,
    now: &str,
    r: Result<Option<String>, CommitPlanError>,
)
    requires
        old(store).wf(),
        call_ensures(commit_plan, (store, plan, expected, rng, now), r),
    ensures
        ({
            let v = old(store)@;
            let after = final(store)@;
            &&& plan.mutations@.len() == 0 ==> r == Ok::<Option<String>, CommitPlanError>(None)
            &&& r is Err || plan.mutations@.len() == 0 ==> after == v
            &&& plan.mutations@.len() > 0 && v.remote_kind != Some(expected) ==> r is Err
            &&& plan.mutations@.len() > 0 && r is Ok ==> {
                &&& r->Ok_0 is Some
                &&& after == StoreView {
                    mutations: after.mutations,
                    mutation_seq: after.mutation_seq,
                    ..v
                }
                &&& after.mutations.len() == v.mutations.len() + plan.mutations@.len()
                &&& forall|k: int|
                    0 <= k < plan.mutations@.len() ==> is_queued(
                        after,
                        #[trigger] plan.mutations@[k],
                        v.mutation_seq->0 + 1 + k,
                        r->Ok_0->0@,
                        now@,
                    )
            }
        }),
{
    let v = old(store)@;
    if r is Ok && r->Ok_0 is Some {
        law_when_a_commit_is_refused(v, plan.mutations@, expected, r->Ok_0->0@, now@);
        law_what_a_commit_queues(v, plan.mutations@, expected, r->Ok_0->0@, now@);
    }
}

} // verus!
