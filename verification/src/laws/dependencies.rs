//! Having one Item wait for another, and no longer.

use vstd::prelude::*;

use crate::domain::{
    classified, DependencyClassification, DependencyRejection, Lifecycle, MutationType,
};
use crate::graph::connected;
use crate::laws::facts::{
    fresh_row, lemma_log_grew, lemma_row, lemma_row_has, log_grew, log_kept, log_open,
};
use crate::mutations::binding;
use crate::payload::json_object;
use crate::repository::dependency::{dependency_added, dependency_removed, DependencyFault};
use crate::rows::DependencyView;
use crate::tables::{waits, StoreView};

verus! {

/// Whether one Item is recorded to wait for the other.
pub open spec fn waits_for(v: StoreView, blocked: Seq<char>, blocking: Seq<char>) -> bool {
    exists|d: int|
        0 <= d < v.dependencies.len() && (#[trigger] v.dependencies[d]).blocked_id == blocked
            && v.dependencies[d].blocking_id == blocking
}

/// Whether the ID is that of an Item.
pub open spec fn is_there(v: StoreView, id: Seq<char>) -> bool {
    exists|i: int| 0 <= i < v.items.len() && (#[trigger] v.items[i]).id == id
}

/// Whether the ID is that of an Item that is done.
pub open spec fn is_done(v: StoreView, id: Seq<char>) -> bool {
    exists|i: int|
        0 <= i < v.items.len() && (#[trigger] v.items[i]).id == id && v.items[i].lifecycle
            == Lifecycle::Done
}

/// What the first Item's wait for the second is to the Backends of the two.
pub open spec fn meaning_is(
    v: StoreView,
    blocked: Seq<char>,
    blocking: Seq<char>,
    meaning: DependencyClassification,
) -> bool {
    &&& binding(v, blocked) is Ok
    &&& binding(v, blocking) is Ok
    &&& classified(binding(v, blocked)->Ok_0, binding(v, blocking)->Ok_0) == meaning
}

proof fn lemma_there(v: StoreView, id: Seq<char>)
    requires
        v.wf(),
    ensures
        v.has(id) == is_there(v, id),
        v.has(id) ==> is_done(v, id) == (v.item(id).lifecycle == Lifecycle::Done),
{
    if v.has(id) {
        lemma_row(v, id);
        assert(v.items[v.at(id)].id == id);
    }
    if is_there(v, id) {
        let i = choose|i: int| 0 <= i < v.items.len() && (#[trigger] v.items[i]).id == id;
        lemma_row_has(v, i);
    }
}

pub proof fn lemma_waits(v: StoreView, blocked: Seq<char>, blocking: Seq<char>)
    ensures
        v.has_dependency(blocked, blocking) == waits_for(v, blocked, blocking),
{
    let p = (blocked, blocking);
    if v.has_dependency(blocked, blocking) {
        let d = choose|d: int| 0 <= d < waits(v.dependencies).len() && waits(v.dependencies)[d] == p;
        assert(v.dependencies[d].blocked_id == blocked);
    }
    if waits_for(v, blocked, blocking) {
        let d = choose|d: int|
            0 <= d < v.dependencies.len() && (#[trigger] v.dependencies[d]).blocked_id == blocked
                && v.dependencies[d].blocking_id == blocking;
        assert(waits(v.dependencies)[d] == p);
    }
}

/// After it was added, the Dependency is there. Where it was before, nothing
/// changes. Else it is the one row more, made now, and where it is the
/// Backend's business too the blocked Item's Backend is told of the blocking
/// one; where it is not, nothing is queued.
pub proof fn law_what_adding_a_dependency_writes(
    v: StoreView,
    blocked: Seq<char>,
    blocking: Seq<char>,
    now: Seq<char>,
)
    requires
        v.wf(),
        dependency_added(v, blocked, blocking, now) is Ok,
    ensures
        ({
            let after = dependency_added(v, blocked, blocking, now)->Ok_0;
            &&& waits_for(after, blocked, blocking)
            &&& waits_for(v, blocked, blocking) ==> after == v
            &&& after == StoreView {
                dependencies: after.dependencies,
                mutations: after.mutations,
                mutation_seq: after.mutation_seq,
                ..v
            }
            &&& !waits_for(v, blocked, blocking) ==> {
                &&& after.dependencies == v.dependencies.push(
                    DependencyView { blocked_id: blocked, blocking_id: blocking, created_at: now },
                )
                &&& meaning_is(v, blocked, blocking, DependencyClassification::BecomesBackendIntent)
                    ==> log_grew(
                    v,
                    after,
                    fresh_row(
                        v.mutation_seq->0 + 1,
                        MutationType::AddDependency,
                        v.item(blocked),
                        json_object(seq![("blocking_id"@, blocking)]),
                        now,
                    ),
                )
                &&& !meaning_is(v, blocked, blocking, DependencyClassification::BecomesBackendIntent)
                    ==> log_kept(v, after)
            }
        }),
{
    let after = dependency_added(v, blocked, blocking, now)->Ok_0;
    lemma_waits(v, blocked, blocking);
    lemma_there(v, blocked);
    lemma_row(v, blocked);
    if !v.has_dependency(blocked, blocking) {
        let row = DependencyView { blocked_id: blocked, blocking_id: blocking, created_at: now };
        let mid = StoreView { dependencies: v.dependencies.push(row), ..v };
        assert(mid.dependencies[v.dependencies.len() as int] == row);
        if meaning_is(v, blocked, blocking, DependencyClassification::BecomesBackendIntent) {
            let request = crate::repository::dependency::dependency_request(
                v,
                MutationType::AddDependency,
                blocked,
                blocking,
                now,
            );
            lemma_log_grew(mid, request);
        }
        assert(after.dependencies[v.dependencies.len() as int] == row);
    }
}

/// What is queued for an Item that is there has its class.
proof fn lemma_queued(v: StoreView, id: Seq<char>)
    requires
        v.wf(),
    ensures
        v.has(id) ==> crate::tables::keys(v.items).contains((id, v.item(id).item_class)),
        log_open(v) ==> !v.has_mutation(v.mutation_seq->0 + 1),
{
    if v.has(id) {
        lemma_row(v, id);
        assert(crate::tables::keys(v.items)[v.at(id)] == (id, v.item(id).item_class));
    }
}

/// A Dependency may be there exactly where both ends are Items, neither is
/// done, no bound Item would wait for a Local one or across Backends, and the
/// blocking end does not wait for the blocked one, however far apart. The
/// refusal tells which of these fails first.
pub proof fn law_when_a_dependency_is_refused(
    v: StoreView,
    blocked: Seq<char>,
    blocking: Seq<char>,
    now: Seq<char>,
)
    requires
        v.wf(),
    ensures
        ({
            let r = dependency_added(v, blocked, blocking, now);
            let there = is_there(v, blocked) && is_there(v, blocking);
            let known = binding(v, blocked) is Ok && binding(v, blocking) is Ok;
            let mixed = meaning_is(
                v,
                blocked,
                blocking,
                DependencyClassification::Rejected(DependencyRejection::BackendKindMismatch),
            );
            let local = meaning_is(
                v,
                blocked,
                blocking,
                DependencyClassification::Rejected(
                    DependencyRejection::BackendBlockedLocalBlocking,
                ),
            );
            match r {
                Err(DependencyFault::EndpointMissing) => !there,
                Err(DependencyFault::BlockedDone) => there && is_done(v, blocked),
                Err(DependencyFault::BlockingDone) => there && !is_done(v, blocked) && is_done(
                    v,
                    blocking,
                ),
                Err(DependencyFault::BackendBinding(_)) => there && !known,
                Err(DependencyFault::BackendBlockedLocalBlocking) => there && local,
                Err(DependencyFault::BackendKindMismatch) => there && mixed,
                Err(DependencyFault::Cycle) => there && connected(
                    waits(v.dependencies),
                    blocking,
                    blocked,
                ),
                Err(DependencyFault::Mutation(_)) => there && !log_open(v) && !waits_for(
                    v,
                    blocked,
                    blocking,
                ) && meaning_is(
                    v,
                    blocked,
                    blocking,
                    DependencyClassification::BecomesBackendIntent,
                ),
                Ok(_) => there && known && !is_done(v, blocked) && !is_done(v, blocking) && !local
                    && !mixed && !connected(waits(v.dependencies), blocking, blocked),
            }
        }),
{
    lemma_there(v, blocked);
    lemma_there(v, blocking);
    lemma_waits(v, blocked, blocking);
    lemma_queued(v, blocked);
}

/// After it was removed, the Dependency is not there and every other is, in
/// order. Where it was not there before, nothing changes. Else, where it is the
/// Backend's business too, the blocked Item's Backend is told; where it is not,
/// nothing is queued.
pub proof fn law_what_removing_a_dependency_writes(
    v: StoreView,
    blocked: Seq<char>,
    blocking: Seq<char>,
    now: Seq<char>,
)
    requires
        v.wf(),
        dependency_removed(v, blocked, blocking, now) is Ok,
    ensures
        ({
            let after = dependency_removed(v, blocked, blocking, now)->Ok_0;
            &&& !waits_for(after, blocked, blocking)
            &&& !waits_for(v, blocked, blocking) ==> after == v
            &&& after == StoreView {
                dependencies: after.dependencies,
                mutations: after.mutations,
                mutation_seq: after.mutation_seq,
                ..v
            }
            &&& waits_for(v, blocked, blocking) ==> {
                &&& exists|d: int|
                    0 <= d < v.dependencies.len() && (#[trigger] v.dependencies[d]).blocked_id
                        == blocked && v.dependencies[d].blocking_id == blocking
                        && after.dependencies == v.dependencies.remove(d)
                &&& meaning_is(v, blocked, blocking, DependencyClassification::BecomesBackendIntent)
                    ==> log_grew(
                    v,
                    after,
                    fresh_row(
                        v.mutation_seq->0 + 1,
                        MutationType::RemoveDependency,
                        v.item(blocked),
                        json_object(seq![("blocking_id"@, blocking)]),
                        now,
                    ),
                )
                &&& !meaning_is(v, blocked, blocking, DependencyClassification::BecomesBackendIntent)
                    ==> log_kept(v, after)
            }
        }),
{
    let after = dependency_removed(v, blocked, blocking, now)->Ok_0;
    let p = (blocked, blocking);
    lemma_waits(v, blocked, blocking);
    lemma_row(v, blocked);
    if v.has_dependency(blocked, blocking) {
        let all = waits(v.dependencies);
        let d = all.index_of(p);
        assert(0 <= d < all.len() && all[d] == p);
        assert(v.dependencies[d].blocked_id == blocked);
        let mid = StoreView { dependencies: v.dependencies.remove(d), ..v };
        if meaning_is(v, blocked, blocking, DependencyClassification::BecomesBackendIntent) {
            let request = crate::repository::dependency::dependency_request(
                v,
                MutationType::RemoveDependency,
                blocked,
                blocking,
                now,
            );
            lemma_log_grew(mid, request);
        }
        if waits_for(after, blocked, blocking) {
            let k = choose|k: int|
                0 <= k < after.dependencies.len() && (#[trigger] after.dependencies[k]).blocked_id
                    == blocked && after.dependencies[k].blocking_id == blocking;
            let j = if k < d {
                k
            } else {
                k + 1
            };
            assert(after.dependencies[k] == v.dependencies[j]);
            assert(all[j] == p);
            assert(j != d);
        }
    }
}

/// Removing asks for two Items whose Backends can be told, and no more: a
/// Dependency of an Item that is done can be removed.
pub proof fn law_when_removing_a_dependency_is_refused(
    v: StoreView,
    blocked: Seq<char>,
    blocking: Seq<char>,
    now: Seq<char>,
)
    requires
        v.wf(),
    ensures
        ({
            let there = is_there(v, blocked) && is_there(v, blocking);
            match dependency_removed(v, blocked, blocking, now) {
                Ok(_) => there && binding(v, blocked) is Ok && binding(v, blocking) is Ok,
                Err(DependencyFault::EndpointMissing) => !there,
                Err(DependencyFault::BackendBinding(_)) => there && (binding(v, blocked) is Err
                    || binding(v, blocking) is Err),
                Err(DependencyFault::Mutation(_)) => !log_open(v) && waits_for(
                    v,
                    blocked,
                    blocking,
                ) && meaning_is(
                    v,
                    blocked,
                    blocking,
                    DependencyClassification::BecomesBackendIntent,
                ),
                Err(_) => false,
            }
        }),
{
    lemma_there(v, blocked);
    lemma_there(v, blocking);
    lemma_waits(v, blocked, blocking);
    lemma_queued(v, blocked);
}

} // verus!
