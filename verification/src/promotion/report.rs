//! What the Mutation Log tells of Promotions after the fact.

use vstd::prelude::*;

use crate::domain::MutationState;
use crate::mutations::{
    abandoned_promotion_of, awaited, awaited_in_operation, places, Pick,
};
use crate::rows::MutationView;
use crate::select::{in_table, picked};
use crate::tables::{Store, StoreView};

use super::recovery::lemma_mutation_target;

verus! {

/// A Promotion withdrawn while its creation was unobserved, so that an object
/// may exist on the Backend that the store holds no identity for.
#[derive(Clone, Debug, PartialEq, Eq)]
pub struct AbandonedPromotion {
    pub sequence: i64,
    pub display_id: String,
}

/// Abandoned Promotions as pairs of sequence and Display ID.
pub open spec fn abandoned_pairs(list: Seq<AbandonedPromotion>) -> Seq<(int, Seq<char>)> {
    Seq::new(list.len(), |i: int| (list[i].sequence as int, list[i].display_id@))
}

/// The latest abandoned Promotion of each Item that has one, in the order of
/// the Items.
pub open spec fn latest_abandoned(v: StoreView, item_ids: Seq<String>) -> Seq<(int, Seq<char>)>
    decreases item_ids.len(),
{
    if item_ids.len() == 0 {
        Seq::empty()
    } else {
        let before = latest_abandoned(v, item_ids.drop_last());
        let id = item_ids.last()@;
        let rows = v.mutations.filter(abandoned_promotion_of(id));
        if rows.len() == 0 {
            before
        } else {
            before.push((rows.last().sequence, v.item(id).display_id))
        }
    }
}

/// The latest abandoned Promotion of each of the Items that have one, by
/// Mutation Sequence.
///
/// Asks for the latest abandonment, not the latest Promotion: every other
/// state a later Promotion could hold created nothing.
pub fn abandoned_promotions(store: &Store, item_ids: &[String]) -> (r: Vec<AbandonedPromotion>)
    requires
        store.wf(),
    ensures
        forall|i: int, j: int|
            0 <= i <= j < r@.len() ==> (#[trigger] r@[i]).sequence <= (#[trigger] r@[j]).sequence,
        abandoned_pairs(r@).to_multiset() == latest_abandoned(store@, item_ids@).to_multiset(),
{
    let mut out: Vec<AbandonedPromotion> = Vec::new();
    let mut i: usize = 0;
    proof {
        assert(abandoned_pairs(out@) =~= Seq::empty());
        assert(item_ids@.take(0).len() == 0);
    }
    while i < item_ids.len()
        invariant
            0 <= i <= item_ids@.len(),
            store.wf(),
            forall|a: int, b: int|
                0 <= a <= b < out@.len() ==> (#[trigger] out@[a]).sequence <= (
                #[trigger] out@[b]).sequence,
            abandoned_pairs(out@).to_multiset() == latest_abandoned(
                store@,
                item_ids@.take(i as int),
            ).to_multiset(),
        decreases item_ids@.len() - i,
    {
        let id = &item_ids[i];
        let ghost head = item_ids@.take(i + 1);
        let ghost before = latest_abandoned(store@, item_ids@.take(i as int));
        proof {
            assert(head.drop_last() =~= item_ids@.take(i as int));
            assert(head.last() == item_ids@[i as int]);
        }
        let rows = places(store, &Pick::AbandonedPromotionOf(id.as_str()));
        let ghost picks = picked(store@.mutations, rows@);
        if rows.len() > 0 {
            let at: usize = rows[rows.len() - 1];
            let m = store.mutation(at);
            proof {
                assert(picks.last() == m@);
                assert((abandoned_promotion_of(id@))(
                    store@.mutations[rows@[rows@.len() - 1] as int],
                ));
                lemma_mutation_target(store@, at as int);
            }
            let display_id = match store.find(id.as_str()) {
                Some(k) => store.item(k).display_id.clone(),
                None => String::new(),
            };
            let mut n: usize = 0;
            while n < out.len() && out[n].sequence <= m.sequence
                invariant
                    0 <= n <= out@.len(),
                    forall|a: int| 0 <= a < n ==> (#[trigger] out@[a]).sequence <= m.sequence,
                decreases out@.len() - n,
            {
                n = n + 1;
            }
            let ghost pairs = abandoned_pairs(out@);
            let ghost entry = (m.sequence as int, display_id@);
            let ghost prior = out@;
            out.insert(n, AbandonedPromotion { sequence: m.sequence, display_id });
            proof {
                assert(abandoned_pairs(out@) =~= pairs.insert(n as int, entry));
                vstd::seq_lib::to_multiset_insert(pairs, n as int, entry);
                vstd::seq_lib::to_multiset_build(before, entry);
                assert forall|a: int, b: int| 0 <= a <= b < out@.len() implies (
                #[trigger] out@[a]).sequence <= (#[trigger] out@[b]).sequence by {
                    let p = if a < n {
                        a
                    } else {
                        a - 1
                    };
                    let q = if b < n {
                        b
                    } else {
                        b - 1
                    };
                    if a == n && b > n {
                        assert(out@[b] == prior[q]);
                        assert(prior[n as int].sequence <= prior[q].sequence);
                    } else if b == n && a < n {
                        assert(out@[a] == prior[p]);
                    } else if a != n && b != n {
                        assert(out@[a] == prior[p] && out@[b] == prior[q]);
                    }
                }
            }
        }
        i = i + 1;
    }
    proof {
        assert(item_ids@.take(i as int) =~= item_ids@);
    }
    out
}

/// What a report shows of a Mutation.
#[derive(Clone, Debug, PartialEq, Eq)]
pub struct MutationSummary {
    pub sequence: i64,
    pub state: MutationState,
    pub target_display_id: String,
}

impl MutationSummary {
    /// Whether the summary shows the Mutation.
    pub open spec fn shows(&self, v: StoreView, m: MutationView) -> bool {
        &&& self.sequence == m.sequence
        &&& self.state == m.state
        &&& self.target_display_id@ == v.item(m.item_id).display_id
    }
}

fn summary(store: &Store, at: usize) -> (r: MutationSummary)
    requires
        store.wf(),
        at < store@.mutations.len(),
    ensures
        r.shows(store@, store@.mutations[at as int]),
{
    let m = store.mutation(at);
    proof {
        lemma_mutation_target(store@, at as int);
    }
    let target_display_id = match store.find(m.item_id.as_str()) {
        Some(i) => store.item(i).display_id.clone(),
        None => String::new(),
    };
    MutationSummary { sequence: m.sequence, state: m.state, target_display_id }
}

/// The earliest Mutation that awaits its outcome, across the whole log.
///
/// Not scoped to a Promotion Operation: the Mutation that stops a sync may
/// predate the operation.
pub fn earliest_applicable_mutation(store: &Store) -> (r: Option<MutationSummary>)
    requires
        store.wf(),
    ensures
        match r {
            None => store@.mutations.filter(awaited()).len() == 0,
            Some(found) => {
                &&& store@.mutations.filter(awaited()).len() > 0
                &&& found.shows(store@, store@.mutations.filter(awaited())[0])
            },
        },
{
    let rows = places(store, &Pick::Awaited);
    proof {
        assert(picked(store@.mutations, rows@).len() == rows@.len());
    }
    if rows.len() == 0 {
        return None;
    }
    proof {
        assert(picked(store@.mutations, rows@)[0] == store@.mutations[rows@[0] as int]);
    }
    Some(summary(store, rows[0]))
}

/// The Mutations of the Promotion Operation that await their outcome, in
/// Mutation Sequence order. None left means that the operation has resolved.
pub fn unresolved_in_operation(store: &Store, operation_id: &str) -> (r: Vec<MutationSummary>)
    requires
        store.wf(),
    ensures
        ({
            let rows = store@.mutations.filter(awaited_in_operation(operation_id@));
            &&& r@.len() == rows.len()
            &&& forall|k: int| 0 <= k < rows.len() ==> (#[trigger] r@[k]).shows(store@, rows[k])
        }),
{
    let at = places(store, &Pick::AwaitedInOperation(operation_id));
    let ghost rows = picked(store@.mutations, at@);
    let mut out: Vec<MutationSummary> = Vec::new();
    let mut k: usize = 0;
    while k < at.len()
        invariant
            0 <= k <= at@.len(),
            store.wf(),
            in_table(at@, store@.mutations.len() as int),
            rows == picked(store@.mutations, at@),
            out@.len() == k,
            forall|j: int| 0 <= j < k ==> (#[trigger] out@[j]).shows(store@, rows[j]),
        decreases at@.len() - k,
    {
        proof {
            assert(rows[k as int] == store@.mutations[at@[k as int] as int]);
        }
        out.push(summary(store, at[k]));
        k = k + 1;
    }
    out
}

} // verus!
