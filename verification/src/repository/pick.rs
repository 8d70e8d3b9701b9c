//! Selections of Items, and the derived facts that several reads share.

use vstd::prelude::*;

use crate::domain::{Lifecycle, MutationState};
use crate::rows::{ExternalBlockerView, Item, ItemView};
use crate::select::{in_table, lemma_filter_all, lemma_filter_none, lemma_filter_step, picked};
use crate::tables::{Store, StoreView};
use crate::text::same_text;

verus! {

/// The places of the Items that meet a condition, in creation order.
pub(crate) fn item_places<F: Fn(&Item) -> bool>(
    store: &Store,
    holds: F,
    Ghost(cond): Ghost<spec_fn(ItemView) -> bool>,
) -> (r: Vec<usize>)
    requires
        forall|item: &Item| #[trigger] call_requires(holds, (item,)),
        forall|item: &Item, b: bool| #[trigger]
            call_ensures(holds, (item,), b) ==> b == cond(item@),
    ensures
        in_table(r@, store@.items.len() as int),
        picked(store@.items, r@) == store@.items.filter(cond),
        r@.len() == store@.items.filter(cond).len(),
{
    let mut out: Vec<usize> = Vec::new();
    let mut i: usize = 0;
    proof {
        lemma_filter_none(store@.items, cond);
        assert(picked(store@.items, out@) =~= Seq::empty());
    }
    while i < store.item_count()
        invariant
            0 <= i <= store@.items.len(),
            forall|item: &Item| #[trigger] call_requires(holds, (item,)),
            forall|item: &Item, b: bool| #[trigger]
                call_ensures(holds, (item,), b) ==> b == cond(item@),
            in_table(out@, store@.items.len() as int),
            picked(store@.items, out@) == store@.items.take(i as int).filter(cond),
        decreases store@.items.len() - i,
    {
        let ghost before = out@;
        proof {
            lemma_filter_step(store@.items, cond, i as int);
        }
        if holds(store.item(i)) {
            out.push(i);
            proof {
                assert(picked(store@.items, out@) =~= picked(store@.items, before).push(
                    store@.items[i as int],
                ));
            }
        }
        i = i + 1;
    }
    proof {
        lemma_filter_all(store@.items, cond);
        assert(picked(store@.items, out@).len() == out@.len());
    }
    out
}

/// Whether an Item waits on one that is not done.
pub open spec fn waits_unresolved(v: StoreView, id: Seq<char>) -> bool {
    exists|i: int|
        0 <= i < v.dependencies.len() && (#[trigger] v.dependencies[i]).blocked_id == id && v.item(
            v.dependencies[i].blocking_id,
        ).lifecycle != Lifecycle::Done
}

/// Whether an Item waits on something outside the store.
pub open spec fn waits_outside(v: StoreView, id: Seq<char>) -> bool {
    exists|i: int|
        0 <= i < v.external_blockers.len() && (#[trigger] v.external_blockers[i]).item_id == id
            && v.external_blockers[i].resolved_at is None
}

/// Whether an Item waits on anything.
pub open spec fn is_blocked(v: StoreView, id: Seq<char>) -> bool {
    waits_unresolved(v, id) || waits_outside(v, id)
}

/// Whether a Mutation of the Item, other than a Promotion, is in the state.
pub open spec fn has_queued(v: StoreView, id: Seq<char>, state: MutationState) -> bool {
    exists|i: int|
        0 <= i < v.mutations.len() && (#[trigger] v.mutations[i]).item_id == id
            && v.mutations[i].state == state && !v.mutations[i].mutation_type.promotes()
}

/// Whether an Item waits on one that is not done.
pub(crate) fn waits_on_open(store: &Store, id: &str) -> (r: bool)
    requires
        store.wf(),
    ensures
        r == waits_unresolved(store@, id@),
{
    let mut i: usize = 0;
    while i < store.dependency_count()
        invariant
            0 <= i <= store@.dependencies.len(),
            store.wf(),
            forall|k: int|
                0 <= k < i ==> !((#[trigger] store@.dependencies[k]).blocked_id == id@
                    && store@.item(store@.dependencies[k].blocking_id).lifecycle
                    != Lifecycle::Done),
        decreases store@.dependencies.len() - i,
    {
        let d = store.dependency(i);
        if same_text(d.blocked_id.as_str(), id) {
            proof {
                assert(store@.dependencies[i as int].blocked_id == id@);
                assert(store@.has(d.blocking_id@));
            }
            match store.find(d.blocking_id.as_str()) {
                Some(k) => {
                    if store.item(k).lifecycle != Lifecycle::Done {
                        return true;
                    }
                },
                None => {},
            }
        }
        i = i + 1;
    }
    false
}

/// Whether an Item waits on something outside the store.
pub(crate) fn waits_externally(store: &Store, id: &str) -> (r: bool)
    ensures
        r == waits_outside(store@, id@),
{
    let mut i: usize = 0;
    while i < store.external_blocker_count()
        invariant
            0 <= i <= store@.external_blockers.len(),
            forall|k: int|
                0 <= k < i ==> !((#[trigger] store@.external_blockers[k]).item_id == id@
                    && store@.external_blockers[k].resolved_at is None),
        decreases store@.external_blockers.len() - i,
    {
        let b = store.external_blocker(i);
        if same_text(b.item_id.as_str(), id) && b.resolved_at.is_none() {
            proof {
                assert(store@.external_blockers[i as int].item_id == id@);
            }
            return true;
        }
        i = i + 1;
    }
    false
}

/// Whether a Mutation of the Item, other than a Promotion, is in the state.
pub(crate) fn queued(store: &Store, id: &str, state: MutationState) -> (r: bool)
    ensures
        r == has_queued(store@, id@, state),
{
    let mut i: usize = 0;
    while i < store.mutation_count()
        invariant
            0 <= i <= store@.mutations.len(),
            forall|k: int|
                0 <= k < i ==> !((#[trigger] store@.mutations[k]).item_id == id@
                    && store@.mutations[k].state == state
                    && !store@.mutations[k].mutation_type.promotes()),
        decreases store@.mutations.len() - i,
    {
        let m = store.mutation(i);
        if same_text(m.item_id.as_str(), id) && m.state == state && !m.mutation_type.is_promotion() {
            proof {
                assert(store@.mutations[i as int].item_id == id@);
            }
            return true;
        }
        i = i + 1;
    }
    false
}

/// Whether an External Blocker of the Item is not resolved.
pub open spec fn blocks_from_outside(id: Seq<char>) -> spec_fn(ExternalBlockerView) -> bool {
    |b: ExternalBlockerView| b.item_id == id && b.resolved_at is None
}

/// The places of the Item's External Blockers that are not resolved, in order.
pub(crate) fn blocker_places(store: &Store, id: &str) -> (r: Vec<usize>)
    ensures
        in_table(r@, store@.external_blockers.len() as int),
        picked(store@.external_blockers, r@) == store@.external_blockers.filter(
            blocks_from_outside(id@),
        ),
        r@.len() == store@.external_blockers.filter(blocks_from_outside(id@)).len(),
{
    let ghost cond = blocks_from_outside(id@);
    let mut out: Vec<usize> = Vec::new();
    let mut i: usize = 0;
    proof {
        lemma_filter_none(store@.external_blockers, cond);
        assert(picked(store@.external_blockers, out@) =~= Seq::empty());
    }
    while i < store.external_blocker_count()
        invariant
            0 <= i <= store@.external_blockers.len(),
            cond == blocks_from_outside(id@),
            in_table(out@, store@.external_blockers.len() as int),
            picked(store@.external_blockers, out@) == store@.external_blockers.take(
                i as int,
            ).filter(cond),
        decreases store@.external_blockers.len() - i,
    {
        let ghost before = out@;
        let b = store.external_blocker(i);
        proof {
            lemma_filter_step(store@.external_blockers, cond, i as int);
        }
        if same_text(b.item_id.as_str(), id) && b.resolved_at.is_none() {
            out.push(i);
            proof {
                assert(picked(store@.external_blockers, out@) =~= picked(
                    store@.external_blockers,
                    before,
                ).push(store@.external_blockers[i as int]));
            }
        }
        i = i + 1;
    }
    proof {
        lemma_filter_all(store@.external_blockers, cond);
        assert(picked(store@.external_blockers, out@).len() == out@.len());
    }
    out
}

} // verus!
