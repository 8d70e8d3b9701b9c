//! What is read of Promotions: the graph that one is judged over, what the log
//! still waits for, and what may exist that nobody knows of.

use vstd::prelude::*;

use crate::domain::{BindingView, ItemStatus, Lifecycle, MutationState, WorkState};
use crate::laws::facts::{lemma_row, makes_object, unsettled};
use crate::mutations::{
    abandoned_promotion_of, awaited, awaited_in_operation, awaited_promotion, WithdrawalCandidate,
};
use crate::promotion::graph::{in_core, in_graph, touches, GraphItem};
use crate::promotion::recovery::{lemma_mutation_target, RecoveryPromotionMapping};
use crate::promotion::report::{latest_abandoned, MutationSummary};
use crate::rows::{opt_text, ItemView, MutationView};
use crate::select::lemma_filter_contains;
use crate::tables::{waits, StoreView};

verus! {

/// Whether one Item is in the other, by the row of the first.
pub open spec fn is_in(v: StoreView, child: Seq<char>, epic: Seq<char>) -> bool {
    exists|i: int|
        0 <= i < v.items.len() && (#[trigger] v.items[i]).id == child && v.items[i].container_id
            == Some(epic)
}

/// Whether an Item is the target, its Epic, or in it.
pub open spec fn is_near(v: StoreView, target: Seq<char>, id: Seq<char>) -> bool {
    id == target || is_in(v, target, id) || is_in(v, id, target)
}

/// Whether one Item waits for another and one of the two is near the target.
pub open spec fn reaches(
    v: StoreView,
    target: Seq<char>,
    blocked: Seq<char>,
    blocking: Seq<char>,
) -> bool {
    &&& exists|d: int|
        0 <= d < v.dependencies.len() && (#[trigger] v.dependencies[d]).blocked_id == blocked
            && v.dependencies[d].blocking_id == blocking
    &&& is_near(v, target, blocked) || is_near(v, target, blocking)
}

proof fn lemma_is_in(v: StoreView, child: Seq<char>, epic: Seq<char>)
    requires
        v.wf(),
    ensures
        is_in(v, child, epic) == (v.has(child) && v.item(child).container_id == Some(epic)),
{
    if v.has(child) {
        lemma_row(v, child);
        assert(v.items[v.at(child)].id == child);
    }
    if is_in(v, child, epic) {
        let i = choose|i: int|
            0 <= i < v.items.len() && (#[trigger] v.items[i]).id == child && v.items[i].container_id
                == Some(epic);
        crate::laws::facts::lemma_row_has(v, i);
    }
}

proof fn lemma_near(v: StoreView, target: Seq<char>, id: Seq<char>)
    requires
        v.wf(),
        v.has(target),
    ensures
        in_core(v, target, id) == is_near(v, target, id),
{
    lemma_is_in(v, target, id);
    lemma_is_in(v, id, target);
}

/// The graph has the Dependencies with an end near the target, and no others:
/// the target itself, its Epic or what it contains.
pub proof fn law_which_dependencies_are_in_the_graph(
    v: StoreView,
    target: Seq<char>,
    blocked: Seq<char>,
    blocking: Seq<char>,
)
    requires
        v.wf(),
        v.has(target),
    ensures
        touches(v, target, (blocked, blocking)) == reaches(v, target, blocked, blocking),
{
    let p = (blocked, blocking);
    lemma_near(v, target, blocked);
    lemma_near(v, target, blocking);
    if waits(v.dependencies).contains(p) {
        let d = choose|d: int| 0 <= d < waits(v.dependencies).len() && waits(v.dependencies)[d] == p;
        assert(v.dependencies[d].blocked_id == blocked);
    }
    if exists|d: int|
        0 <= d < v.dependencies.len() && (#[trigger] v.dependencies[d]).blocked_id == blocked
            && v.dependencies[d].blocking_id == blocking {
        let d = choose|d: int|
            0 <= d < v.dependencies.len() && (#[trigger] v.dependencies[d]).blocked_id == blocked
                && v.dependencies[d].blocking_id == blocking;
        assert(waits(v.dependencies)[d] == p);
    }
}

/// The graph has the Items near the target and both ends of its Dependencies,
/// and goes no further.
pub proof fn law_which_items_are_in_the_graph(v: StoreView, target: Seq<char>, id: Seq<char>)
    requires
        v.wf(),
        v.has(target),
    ensures
        in_graph(v, target, id) == (is_near(v, target, id) || (exists|other: Seq<char>| #[trigger]
            reaches(v, target, id, other)) || (exists|other: Seq<char>| #[trigger]
            reaches(v, target, other, id))),
{
    lemma_near(v, target, id);
    assert forall|other: Seq<char>| #[trigger]
        touches(v, target, (id, other)) == reaches(v, target, id, other) by {
        law_which_dependencies_are_in_the_graph(v, target, id, other);
    }
    assert forall|other: Seq<char>| #[trigger]
        touches(v, target, (other, id)) == reaches(v, target, other, id) by {
        law_which_dependencies_are_in_the_graph(v, target, other, id);
    }
    assert forall|other: Seq<char>| #[trigger]
        reaches(v, target, id, other) == touches(v, target, (id, other)) by {
        law_which_dependencies_are_in_the_graph(v, target, id, other);
    }
    assert forall|other: Seq<char>| #[trigger]
        reaches(v, target, other, id) == touches(v, target, (other, id)) by {
        law_which_dependencies_are_in_the_graph(v, target, other, id);
    }
}

/// The graph tells an Item as its row does.
pub proof fn law_what_the_graph_tells_of_an_item(node: GraphItem, item: ItemView, bound: BindingView)
    requires
        node.shows(item, bound),
    ensures
        node.id@ == item.id,
        node.display_id@ == item.display_id,
        node.item_class == item.item_class,
        node.ticket_kind == item.ticket_kind,
        node.selection_state == item.selection_state,
        node.title@ == item.title,
        node.body@ == item.body,
        node.created_seq == item.created_seq,
        opt_text(node.container_id) == item.container_id,
        node.backend_binding@ == bound,
        (node.status == ItemStatus::Done) == (item.lifecycle == Lifecycle::Done),
        (node.status == ItemStatus::Active) == (item.lifecycle == Lifecycle::Open && item.work_state
            == WorkState::Active),
{
}

/// Whether the Mutation is the latest abandoned Promotion of the Item.
pub open spec fn abandoned_last(v: StoreView, id: Seq<char>, i: int) -> bool {
    &&& 0 <= i < v.mutations.len()
    &&& is_abandoned(v.mutations[i], id)
    &&& forall|j: int|
        i < j < v.mutations.len() ==> !is_abandoned(#[trigger] v.mutations[j], id)
}

/// Whether a Mutation is a Promotion of the Item that was given up while nobody
/// knew whether it had made an object.
pub open spec fn is_abandoned(m: MutationView, id: Seq<char>) -> bool {
    m.item_id == id && makes_object(m.mutation_type) && m.state == MutationState::Abandoned
}

/// Whether a pair is about the latest abandoned Promotion of the Item.
pub open spec fn reports_abandoned(v: StoreView, id: Seq<char>, pair: (int, Seq<char>)) -> bool {
    exists|i: int| #[trigger]
        abandoned_last(v, id, i) && pair == (v.mutations[i].sequence, v.item(id).display_id)
}

/// Whether one of the pairs is about the latest abandoned Promotion of the Item.
pub open spec fn has_abandoned(v: StoreView, id: Seq<char>, pairs: Seq<(int, Seq<char>)>) -> bool {
    exists|k: int| 0 <= k < pairs.len() && reports_abandoned(v, id, #[trigger] pairs[k])
}

/// Whether the pair is about one of the Items.
pub open spec fn is_about_one(v: StoreView, ids: Seq<String>, pair: (int, Seq<char>)) -> bool {
    exists|j: int| 0 <= j < ids.len() && reports_abandoned(v, (#[trigger] ids[j])@, pair)
}

proof fn lemma_abandoned(v: StoreView, id: Seq<char>)
    ensures
        ({
            let rows = v.mutations.filter(abandoned_promotion_of(id));
            &&& rows.len() > 0 ==> exists|i: int| #[trigger]
                abandoned_last(v, id, i) && v.mutations[i] == rows.last()
            &&& rows.len() == 0 ==> forall|i: int| !#[trigger] abandoned_last(v, id, i)
        }),
{
    let cond = abandoned_promotion_of(id);
    let rows = v.mutations.filter(cond);
    assert(forall|m: MutationView| #[trigger] cond(m) == is_abandoned(m, id));
    lemma_last_selected(v.mutations, cond);
    if rows.len() > 0 {
        let i = choose|i: int|
            0 <= i < v.mutations.len() && #[trigger] v.mutations[i] == rows.last() && forall|j: int|
                i < j < v.mutations.len() ==> !cond(#[trigger] v.mutations[j]);
        lemma_filter_contains(v.mutations, cond);
        assert(cond(rows[rows.len() - 1]));
        assert forall|j: int| i < j < v.mutations.len() implies !is_abandoned(
            #[trigger] v.mutations[j],
            id,
        ) by {
            assert(!cond(v.mutations[j]));
        }
        assert(abandoned_last(v, id, i));
    } else {
        crate::laws::facts::lemma_none_selected(v.mutations, cond);
        assert forall|i: int| !#[trigger] abandoned_last(v, id, i) by {
            if abandoned_last(v, id, i) {
                assert(cond(v.mutations[i]));
            }
        }
    }
}

/// A selection ends with the last row that meets the condition.
proof fn lemma_last_selected<A>(rows: Seq<A>, cond: spec_fn(A) -> bool)
    ensures
        rows.filter(cond).len() > 0 ==> exists|i: int|
            0 <= i < rows.len() && #[trigger] rows[i] == rows.filter(cond).last() && forall|j: int|
                i < j < rows.len() ==> !cond(#[trigger] rows[j]),
    decreases rows.len(),
{
    reveal(Seq::filter);
    if rows.len() > 0 {
        let rest = rows.drop_last();
        lemma_last_selected(rest, cond);
        if cond(rows.last()) {
            assert(rows[rows.len() - 1] == rows.filter(cond).last());
        } else if rest.filter(cond).len() > 0 {
            let i = choose|i: int|
                0 <= i < rest.len() && #[trigger] rest[i] == rest.filter(cond).last() && forall|j: int|
                    i < j < rest.len() ==> !cond(#[trigger] rest[j]);
            assert(rows[i] == rest[i]);
            assert forall|j: int| i < j < rows.len() implies !cond(#[trigger] rows[j]) by {
                if j < rest.len() {
                    assert(rest[j] == rows[j]);
                }
            }
        }
    }
}

/// Of the Items asked about, those with an abandoned Promotion are reported and
/// no others, each with the latest one and the Display ID that it has.
pub proof fn law_which_abandoned_promotions_are_reported(v: StoreView, ids: Seq<String>)
    ensures
        forall|j: int, i: int|
            #![trigger ids[j], v.mutations[i]]
            0 <= j < ids.len() && abandoned_last(v, ids[j]@, i) ==> has_abandoned(
                v,
                ids[j]@,
                latest_abandoned(v, ids),
            ),
        forall|k: int|
            0 <= k < latest_abandoned(v, ids).len() ==> is_about_one(
                v,
                ids,
                #[trigger] latest_abandoned(v, ids)[k],
            ),
    decreases ids.len(),
{
    if ids.len() > 0 {
        let rest = ids.drop_last();
        let id = ids.last()@;
        assert(ids[ids.len() - 1] == ids.last());
        law_which_abandoned_promotions_are_reported(v, rest);
        lemma_abandoned(v, id);
        let before = latest_abandoned(v, rest);
        let all = latest_abandoned(v, ids);
        let rows = v.mutations.filter(abandoned_promotion_of(id));
        if rows.len() > 0 {
            assert(all[before.len() as int] == (rows.last().sequence, v.item(id).display_id));
            assert(reports_abandoned(v, id, all[before.len() as int]));
            assert(has_abandoned(v, id, all));
        }
        assert forall|j: int, i: int|
            #![trigger ids[j], v.mutations[i]]
            0 <= j < ids.len() && abandoned_last(v, ids[j]@, i) implies has_abandoned(
            v,
            ids[j]@,
            all,
        ) by {
            if j < rest.len() {
                assert(rest[j] == ids[j]);
                assert(has_abandoned(v, rest[j]@, before));
                let k = choose|k: int|
                    0 <= k < before.len() && reports_abandoned(v, rest[j]@, #[trigger] before[k]);
                assert(all[k] == before[k]);
            }
        }
        assert forall|k: int| 0 <= k < all.len() implies is_about_one(v, ids, #[trigger] all[k]) by {
            if k < before.len() {
                assert(all[k] == before[k]);
                assert(is_about_one(v, rest, before[k]));
                let j = choose|j: int|
                    0 <= j < rest.len() && reports_abandoned(v, (#[trigger] rest[j])@, before[k]);
                assert(ids[j] == rest[j]);
            } else {
                assert(reports_abandoned(v, ids[ids.len() - 1]@, all[k]));
            }
        }
    }
}

/// What awaits its outcome is what is pending, failed or under way; within an
/// operation, what carries that operation.
pub proof fn law_what_the_log_waits_for(m: MutationView, operation_id: Seq<char>)
    ensures
        (awaited())(m) == unsettled(m.state),
        (awaited_in_operation(operation_id))(m) == (unsettled(m.state) && m.promotion_operation_id
            == Some(operation_id)),
        (awaited_promotion())(m) == (unsettled(m.state) && makes_object(m.mutation_type)),
        (crate::mutations::withdrawable())(m) == (crate::laws::facts::in_queue(m.state)
            && !makes_object(m.mutation_type)),
{
}

/// A line about a Mutation of the log tells its sequence and state, and the
/// Display ID of its own Item.
pub proof fn law_what_a_line_tells(
    v: StoreView,
    line: MutationSummary,
    mapping: RecoveryPromotionMapping,
    candidate: WithdrawalCandidate,
    i: int,
)
    requires
        v.wf(),
        0 <= i < v.mutations.len(),
    ensures
        line.shows(v, v.mutations[i]) ==> line.sequence == v.mutations[i].sequence && line.state
            == v.mutations[i].state && is_display_id(
            v,
            v.mutations[i].item_id,
            line.target_display_id@,
        ),
        mapping.shows(v, v.mutations[i]) ==> mapping.sequence == v.mutations[i].sequence
            && mapping.item_id@ == v.mutations[i].item_id && mapping.item_class
            == v.mutations[i].item_class && is_display_id(
            v,
            v.mutations[i].item_id,
            mapping.outgoing_display_id@,
        ),
        candidate.stands_for(v.mutations[i]) ==> candidate.sequence == v.mutations[i].sequence
            && candidate.state == v.mutations[i].state && candidate.mutation_type
            == v.mutations[i].mutation_type && candidate.item_id@ == v.mutations[i].item_id
            && candidate.payload_json@ == v.mutations[i].payload_json && opt_text(
            candidate.promotion_operation_id,
        ) == v.mutations[i].promotion_operation_id,
{
    lemma_mutation_target(v, i);
    lemma_row(v, v.mutations[i].item_id);
    assert(v.items[v.at(v.mutations[i].item_id)].id == v.mutations[i].item_id);
}

/// Whether the Item with the ID goes by the Display ID.
pub open spec fn is_display_id(v: StoreView, id: Seq<char>, display_id: Seq<char>) -> bool {
    exists|k: int|
        0 <= k < v.items.len() && (#[trigger] v.items[k]).id == id && v.items[k].display_id
            == display_id
}

} // verus!
