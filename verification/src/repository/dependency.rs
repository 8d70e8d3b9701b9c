//! Dependencies between Items.
//!
//! A Dependency whose ends are bound for the same Backend is also queued for
//! it. Which of the two it is, and which may not exist at all, is one rule,
//! shared with Promotion.

use vstd::prelude::*;

use crate::domain::{
    classified, classify, DependencyClassification, DependencyRejection, ItemClass, Lifecycle,
    MutationType,
};
use crate::graph::{connected, leads_to, lemma_within_joins, within};
use crate::keep::{lemma_push_dependency, lemma_remove_dependency};
use crate::mutations::{
    append, appended, binding, resolve_backend_binding, AppendError, AppendRequest, AppendView,
    BackendBindingError, BindingFault,
};
use crate::payload::{dependency_pairs, json_object, DependencyRef, MutationPayload};
use crate::rows::{Dependency, DependencyView};
use crate::tables::{waits, Store, StoreView};

verus! {

/// The ends of a Dependency.
#[derive(Clone, Copy, Debug)]
pub struct DependencyEdge<'a> {
    /// Internal ID of the Item that waits.
    pub blocked_id: &'a str,
    /// Internal ID of the Item that must finish first.
    pub blocking_id: &'a str,
}

/// Why a Dependency was not added. Success means that it is there, whether or
/// not it was before.
#[derive(Debug)]
pub enum AddDependencyError {
    /// An end is no Item.
    EndpointMissing,
    /// The blocked Item is done.
    BlockedDone,
    /// The blocking Item is done.
    BlockingDone,
    /// The Dependency would close a cycle.
    Cycle,
    /// A bound Item cannot wait on one that no Backend can name.
    BackendBlockedLocalBlocking,
    /// The ends are bound for different Backends.
    BackendKindMismatch,
    BackendBinding(BackendBindingError),
    Mutation(AppendError),
}

/// Why a Dependency was not removed. Success means that it is not there.
#[derive(Debug)]
pub enum RemoveDependencyError {
    /// An end is no Item.
    EndpointMissing,
    BackendBinding(BackendBindingError),
    Mutation(AppendError),
}

/// The model of [`AddDependencyError`] and [`RemoveDependencyError`].
pub enum DependencyFault {
    EndpointMissing,
    BlockedDone,
    BlockingDone,
    Cycle,
    BackendBlockedLocalBlocking,
    BackendKindMismatch,
    BackendBinding(BindingFault),
    Mutation(AppendError),
}

impl View for AddDependencyError {
    type V = DependencyFault;

    open spec fn view(&self) -> DependencyFault {
        match self {
            AddDependencyError::EndpointMissing => DependencyFault::EndpointMissing,
            AddDependencyError::BlockedDone => DependencyFault::BlockedDone,
            AddDependencyError::BlockingDone => DependencyFault::BlockingDone,
            AddDependencyError::Cycle => DependencyFault::Cycle,
            AddDependencyError::BackendBlockedLocalBlocking => {
                DependencyFault::BackendBlockedLocalBlocking
            },
            AddDependencyError::BackendKindMismatch => DependencyFault::BackendKindMismatch,
            AddDependencyError::BackendBinding(error) => DependencyFault::BackendBinding(error@),
            AddDependencyError::Mutation(error) => DependencyFault::Mutation(*error),
        }
    }
}

impl View for RemoveDependencyError {
    type V = DependencyFault;

    open spec fn view(&self) -> DependencyFault {
        match self {
            RemoveDependencyError::EndpointMissing => DependencyFault::EndpointMissing,
            RemoveDependencyError::BackendBinding(error) => DependencyFault::BackendBinding(error@),
            RemoveDependencyError::Mutation(error) => DependencyFault::Mutation(*error),
        }
    }
}

/// What the Dependency means, or why it cannot be told.
pub open spec fn edge_meaning(v: StoreView, blocked: Seq<char>, blocking: Seq<char>) -> Result<
    DependencyClassification,
    BindingFault,
> {
    match binding(v, blocked) {
        Err(fault) => Err(fault),
        Ok(b) => match binding(v, blocking) {
            Err(fault) => Err(fault),
            Ok(k) => Ok(classified(b, k)),
        },
    }
}

/// What the Backend is told of a Dependency.
pub open spec fn dependency_request(
    v: StoreView,
    mutation_type: MutationType,
    blocked: Seq<char>,
    blocking: Seq<char>,
    now: Seq<char>,
) -> AppendView {
    AppendView {
        mutation_type,
        item_id: blocked,
        item_class: v.item(blocked).item_class,
        payload: json_object(dependency_pairs(blocking)),
        operation: None,
        now,
    }
}

/// Why a Dependency may not be there, if it may not.
pub open spec fn dependency_refusal(
    v: StoreView,
    blocked: Seq<char>,
    blocking: Seq<char>,
) -> Option<DependencyFault> {
    if !v.has(blocked) || !v.has(blocking) {
        Some(DependencyFault::EndpointMissing)
    } else if v.item(blocked).lifecycle == Lifecycle::Done {
        Some(DependencyFault::BlockedDone)
    } else if v.item(blocking).lifecycle == Lifecycle::Done {
        Some(DependencyFault::BlockingDone)
    } else {
        match edge_meaning(v, blocked, blocking) {
            Err(fault) => Some(DependencyFault::BackendBinding(fault)),
            Ok(
                DependencyClassification::Rejected(
                    DependencyRejection::BackendBlockedLocalBlocking,
                ),
            ) => Some(DependencyFault::BackendBlockedLocalBlocking),
            Ok(DependencyClassification::Rejected(DependencyRejection::BackendKindMismatch)) => {
                Some(DependencyFault::BackendKindMismatch)
            },
            Ok(_) => if connected(waits(v.dependencies), blocking, blocked) {
                Some(DependencyFault::Cycle)
            } else {
                None
            },
        }
    }
}

/// The store with a Dependency added, or why it is not: one that is there
/// already is left alone.
pub open spec fn dependency_added(
    v: StoreView,
    blocked: Seq<char>,
    blocking: Seq<char>,
    now: Seq<char>,
) -> Result<StoreView, DependencyFault> {
    match dependency_refusal(v, blocked, blocking) {
        Some(fault) => Err(fault),
        None => if v.has_dependency(blocked, blocking) {
            Ok(v)
        } else {
            let after = StoreView {
                dependencies: v.dependencies.push(
                    DependencyView { blocking_id: blocking, blocked_id: blocked, created_at: now },
                ),
                ..v
            };
            if edge_meaning(v, blocked, blocking)->Ok_0
                == DependencyClassification::BecomesBackendIntent {
                match appended(
                    after,
                    dependency_request(v, MutationType::AddDependency, blocked, blocking, now),
                ) {
                    Ok(queued) => Ok(queued),
                    Err(error) => Err(DependencyFault::Mutation(error)),
                }
            } else {
                Ok(after)
            }
        },
    }
}

/// The store with a Dependency removed, or why it is not: one that is not
/// there is no fault.
pub open spec fn dependency_removed(
    v: StoreView,
    blocked: Seq<char>,
    blocking: Seq<char>,
    now: Seq<char>,
) -> Result<StoreView, DependencyFault> {
    if !v.has(blocked) || !v.has(blocking) {
        Err(DependencyFault::EndpointMissing)
    } else {
        match edge_meaning(v, blocked, blocking) {
            Err(fault) => Err(DependencyFault::BackendBinding(fault)),
            Ok(meaning) => if !v.has_dependency(blocked, blocking) {
                Ok(v)
            } else {
                let after = StoreView {
                    dependencies: v.dependencies.remove(
                        waits(v.dependencies).index_of((blocked, blocking)),
                    ),
                    ..v
                };
                if meaning == DependencyClassification::BecomesBackendIntent {
                    match appended(
                        after,
                        dependency_request(
                            v,
                            MutationType::RemoveDependency,
                            blocked,
                            blocking,
                            now,
                        ),
                    ) {
                        Ok(queued) => Ok(queued),
                        Err(error) => Err(DependencyFault::Mutation(error)),
                    }
                } else {
                    Ok(after)
                }
            },
        }
    }
}

/// What the Dependency means for the Backend.
fn classify_edge(store: &Store, edge: DependencyEdge<'_>) -> (r: Result<
    DependencyClassification,
    BackendBindingError,
>)
    requires
        store.wf(),
    ensures
        match r {
            Ok(meaning) => edge_meaning(store@, edge.blocked_id@, edge.blocking_id@) == Ok::<
                DependencyClassification,
                BindingFault,
            >(meaning),
            Err(error) => edge_meaning(store@, edge.blocked_id@, edge.blocking_id@) == Err::<
                DependencyClassification,
                BindingFault,
            >(error@),
        },
{
    match resolve_backend_binding(store, edge.blocked_id) {
        Err(error) => Err(error),
        Ok(blocked) => match resolve_backend_binding(store, edge.blocking_id) {
            Err(error) => Err(error),
            Ok(blocking) => Ok(classify(&blocked, &blocking)),
        },
    }
}

/// Queues a Dependency change for the Backend.
fn queue_edge(
    work: &mut Store,
    mutation_type: MutationType,
    item_class: ItemClass,
    edge: DependencyEdge<'_>,
    now: &str,
) -> (r: Result<(), AppendError>)
    requires
        old(work).wf(),
    ensures
        final(work).wf(),
        ({
            let request = AppendView {
                mutation_type,
                item_id: edge.blocked_id@,
                item_class,
                payload: json_object(dependency_pairs(edge.blocking_id@)),
                operation: None,
                now: now@,
            };
            match r {
                Ok(()) => appended(old(work)@, request) == Ok::<StoreView, AppendError>(
                    final(work)@,
                ),
                Err(error) => appended(old(work)@, request) == Err::<StoreView, AppendError>(
                    error,
                ),
            }
        }),
{
    let payload = MutationPayload::DependencyRef(
        DependencyRef { blocking_id: edge.blocking_id.to_owned() },
    );
    match append(
        work,
        AppendRequest {
            mutation_type,
            item_id: edge.blocked_id,
            item_class,
            payload: &payload,
            promotion_operation_id: None,
            now_iso: now,
        },
    ) {
        Ok(_) => Ok(()),
        Err(error) => Err(error),
    }
}

/// Add a Dependency: the blocked Item waits on the blocking one.
pub fn add_dependency(store: &mut Store, now: &str, edge: DependencyEdge<'_>) -> (r: Result<
    (),
    AddDependencyError,
>)
    requires
        old(store).wf(),
    ensures
        final(store).wf(),
        match r {
            Ok(()) => dependency_added(
                old(store)@,
                edge.blocked_id@,
                edge.blocking_id@,
                now@,
            ) == Ok::<StoreView, DependencyFault>(final(store)@),
            Err(error) => {
                &&& dependency_added(old(store)@, edge.blocked_id@, edge.blocking_id@, now@)
                    == Err::<StoreView, DependencyFault>(error@)
                &&& final(store)@ == old(store)@
            },
        },
{
    let (b, k) = match (store.find(edge.blocked_id), store.find(edge.blocking_id)) {
        (Some(b), Some(k)) => (b, k),
        _ => {
            return Err(AddDependencyError::EndpointMissing);
        },
    };
    let blocked_class = store.item(b).item_class;
    if store.item(b).lifecycle == Lifecycle::Done {
        return Err(AddDependencyError::BlockedDone);
    }
    if store.item(k).lifecycle == Lifecycle::Done {
        return Err(AddDependencyError::BlockingDone);
    }
    let meaning = match classify_edge(store, edge) {
        Ok(meaning) => meaning,
        Err(error) => {
            return Err(AddDependencyError::BackendBinding(error));
        },
    };
    match meaning {
        DependencyClassification::Rejected(DependencyRejection::BackendBlockedLocalBlocking) => {
            return Err(AddDependencyError::BackendBlockedLocalBlocking);
        },
        DependencyClassification::Rejected(DependencyRejection::BackendKindMismatch) => {
            return Err(AddDependencyError::BackendKindMismatch);
        },
        _ => {},
    }
    let edges = store.wait_edges();
    if leads_to(&edges, edge.blocking_id, edge.blocked_id) {
        return Err(AddDependencyError::Cycle);
    }
    if store.find_dependency(edge.blocked_id, edge.blocking_id).is_some() {
        return Ok(());
    }
    let mut work = store.copy();
    let row = Dependency {
        blocking_id: edge.blocking_id.to_owned(),
        blocked_id: edge.blocked_id.to_owned(),
        created_at: now.to_owned(),
    };
    proof {
        assert(row@ =~= DependencyView {
            blocking_id: edge.blocking_id@,
            blocked_id: edge.blocked_id@,
            created_at: now@,
        });
        lemma_push_dependency(store@, row@);
    }
    work.push_dependency(row);
    if meaning == DependencyClassification::BecomesBackendIntent {
        match queue_edge(&mut work, MutationType::AddDependency, blocked_class, edge, now) {
            Ok(()) => {},
            Err(error) => {
                return Err(AddDependencyError::Mutation(error));
            },
        }
    }
    *store = work;
    Ok(())
}

/// Remove a Dependency. One that is not there is a no-op.
pub fn remove_dependency(store: &mut Store, now: &str, edge: DependencyEdge<'_>) -> (r: Result<
    (),
    RemoveDependencyError,
>)
    requires
        old(store).wf(),
    ensures
        final(store).wf(),
        match r {
            Ok(()) => dependency_removed(
                old(store)@,
                edge.blocked_id@,
                edge.blocking_id@,
                now@,
            ) == Ok::<StoreView, DependencyFault>(final(store)@),
            Err(error) => {
                &&& dependency_removed(old(store)@, edge.blocked_id@, edge.blocking_id@, now@)
                    == Err::<StoreView, DependencyFault>(error@)
                &&& final(store)@ == old(store)@
            },
        },
{
    let b: usize = match (store.find(edge.blocked_id), store.find(edge.blocking_id)) {
        (Some(b), Some(_)) => b,
        _ => {
            return Err(RemoveDependencyError::EndpointMissing);
        },
    };
    let blocked_class = store.item(b).item_class;
    let meaning = match classify_edge(store, edge) {
        Ok(meaning) => meaning,
        Err(error) => {
            return Err(RemoveDependencyError::BackendBinding(error));
        },
    };
    let at: usize = match store.find_dependency(edge.blocked_id, edge.blocking_id) {
        Some(at) => at,
        None => {
            return Ok(());
        },
    };
    let mut work = store.copy();
    proof {
        lemma_dependency_place(store@, at as int);
        lemma_remove_dependency(store@, at as int);
    }
    work.remove_dependency_row(at);
    if meaning == DependencyClassification::BecomesBackendIntent {
        match queue_edge(&mut work, MutationType::RemoveDependency, blocked_class, edge, now) {
            Ok(()) => {},
            Err(error) => {
                return Err(RemoveDependencyError::Mutation(error));
            },
        }
    }
    *store = work;
    Ok(())
}

/// A Dependency stands at one place alone.
proof fn lemma_dependency_place(v: StoreView, i: int)
    requires
        v.wf(),
        0 <= i < v.dependencies.len(),
    ensures
        waits(v.dependencies).index_of(waits(v.dependencies)[i]) == i,
{
    let all = waits(v.dependencies);
    let k = all.index_of(all[i]);
    assert(0 <= k < all.len() && all[k] == all[i]);
}

// ---- Laws ---------------------------------------------------------------

/// In no store do two different Items wait on each other, however far apart.
pub proof fn law_dependencies_close_no_cycle(v: StoreView, a: Seq<char>, b: Seq<char>)
    requires
        v.wf(),
        a != b,
        connected(waits(v.dependencies), a, b),
    ensures
        !connected(waits(v.dependencies), b, a),
{
    let edges = waits(v.dependencies);
    if connected(edges, b, a) {
        let m = choose|m: nat| #[trigger] within(edges, m, a, b);
        let n = choose|n: nat| #[trigger] within(edges, n, b, a);
        let i = choose|i: int|
            0 <= i < edges.len() && (#[trigger] edges[i]).1 == b && within(
                edges,
                (m - 1) as nat,
                a,
                edges[i].0,
            );
        lemma_within_joins(edges, n, (m - 1) as nat, b, a, edges[i].0);
        assert(connected(edges, edges[i].1, edges[i].0));
    }
}

/// Removing a Dependency undoes adding it.
pub proof fn law_remove_undoes_add(
    v: StoreView,
    blocked: Seq<char>,
    blocking: Seq<char>,
    now: Seq<char>,
    later: Seq<char>,
)
    requires
        v.wf(),
        dependency_added(v, blocked, blocking, now) is Ok,
        !v.has_dependency(blocked, blocking),
        dependency_removed(dependency_added(v, blocked, blocking, now)->Ok_0, blocked, blocking, later)
            is Ok,
    ensures
        ({
            let added = dependency_added(v, blocked, blocking, now)->Ok_0;
            let removed = dependency_removed(added, blocked, blocking, later)->Ok_0;
            &&& added.has_dependency(blocked, blocking)
            &&& removed.dependencies == v.dependencies
            &&& removed.items == v.items
        }),
{
    let row = DependencyView { blocking_id: blocking, blocked_id: blocked, created_at: now };
    let added = dependency_added(v, blocked, blocking, now)->Ok_0;
    lemma_push_dependency(v, row);
    let all = waits(added.dependencies);
    let last = v.dependencies.len() as int;
    assert(all == waits(v.dependencies).push((blocked, blocking)));
    assert(all[last] == (blocked, blocking));
    let k = all.index_of((blocked, blocking));
    assert(0 <= k < all.len() && all[k] == all[last]);
    assert(all.no_duplicates());
    assert(v.dependencies.push(row).remove(last) =~= v.dependencies);
}

} // verus!
