//! The words that the laws speak in, each read straight off the tables.

use vstd::prelude::*;

use crate::domain::{ItemClass, Lifecycle, MutationState, MutationType, Origin, WorkState};
use crate::mutations::{appended, pending_row, AppendView};
use crate::rows::{ItemView, MutationView};
use crate::select::lemma_filter_contains;
use crate::tables::{lemma_at, lemma_has, StoreView};
use crate::text::folded;

verus! {

/// Whether a Mutation of the type makes an object on the Backend.
pub open spec fn makes_object(mutation_type: MutationType) -> bool {
    mutation_type == MutationType::PromoteTicket || mutation_type == MutationType::PromoteEpic
}

/// Whether a Mutation in the state waits for its first or another attempt.
pub open spec fn in_queue(state: MutationState) -> bool {
    state == MutationState::Pending || state == MutationState::Failed
}

/// Whether a Mutation in the state has not come to its end.
pub open spec fn unsettled(state: MutationState) -> bool {
    in_queue(state) || state == MutationState::Applying
}

/// Whether a row of the table is the Item with the ID, and what it is.
pub open spec fn is_row(v: StoreView, id: Seq<char>, item: ItemView) -> bool {
    exists|i: int| 0 <= i < v.items.len() && #[trigger] v.items[i] == item && item.id == id
}

/// Whether an Item that is not done holds the Item up, or something outside
/// does that is not resolved.
pub open spec fn held_up(v: StoreView, id: Seq<char>) -> bool {
    ||| exists|d: int, i: int|
        #![trigger v.dependencies[d], v.items[i]]
        0 <= d < v.dependencies.len() && 0 <= i < v.items.len() && v.dependencies[d].blocked_id
            == id && v.dependencies[d].blocking_id == v.items[i].id && v.items[i].lifecycle
            == Lifecycle::Open
    ||| exists|b: int|
        0 <= b < v.external_blockers.len() && (#[trigger] v.external_blockers[b]).item_id == id
            && v.external_blockers[b].resolved_at is None
}

/// Whether nobody works on an Item that is not done.
pub open spec fn startable(item: ItemView) -> bool {
    item.lifecycle == Lifecycle::Open && item.work_state == WorkState::Idle
}

/// Whether a Promotion of the Item has not come to its end.
pub open spec fn being_promoted(v: StoreView, id: Seq<char>) -> bool {
    exists|i: int|
        0 <= i < v.mutations.len() && (#[trigger] v.mutations[i]).item_id == id && makes_object(
            v.mutations[i].mutation_type,
        ) && unsettled(v.mutations[i].state)
}

/// Whether nothing of the tables but Items changed, and of these only the one.
pub open spec fn only_item_changed(v: StoreView, after: StoreView, id: Seq<char>) -> bool {
    &&& after == StoreView { items: after.items, ..v }
    &&& items_kept_but(v, after, id)
}

/// Whether every Item but the one is as it was and where it was.
pub open spec fn items_kept_but(v: StoreView, after: StoreView, id: Seq<char>) -> bool {
    &&& after.items.len() == v.items.len()
    &&& forall|i: int|
        0 <= i < v.items.len() ==> (#[trigger] after.items[i]).id == v.items[i].id && (
        v.items[i].id != id ==> after.items[i] == v.items[i])
}

/// Whether nothing but Items and the log changed.
pub open spec fn only_items_and_log(v: StoreView, after: StoreView) -> bool {
    after == StoreView {
        items: after.items,
        mutations: after.mutations,
        mutation_seq: after.mutation_seq,
        ..v
    }
}

/// Whether the log is as it was.
pub open spec fn log_kept(v: StoreView, after: StoreView) -> bool {
    after.mutations == v.mutations && after.mutation_seq == v.mutation_seq
}

/// Whether the log has every Mutation that it had, and one more.
pub open spec fn log_grew(v: StoreView, after: StoreView, row: MutationView) -> bool {
    &&& after.mutations.len() == v.mutations.len() + 1
    &&& after.mutations.contains(row)
    &&& forall|m: MutationView| v.mutations.contains(m) ==> #[trigger] after.mutations.contains(m)
    &&& forall|m: MutationView| #[trigger]
        after.mutations.contains(m) ==> m == row || v.mutations.contains(m)
    &&& v.mutation_seq is Some
    &&& row.sequence == v.mutation_seq->0 + 1
    &&& after.mutation_seq == Some(row.sequence)
}

/// A Mutation that was just queued, on its own.
pub open spec fn fresh_row(
    sequence: int,
    mutation_type: MutationType,
    item: ItemView,
    payload: Seq<char>,
    now: Seq<char>,
) -> MutationView {
    MutationView {
        sequence,
        mutation_type,
        item_id: item.id,
        item_class: item.item_class,
        payload_json: payload,
        state: MutationState::Pending,
        failure_json: None,
        created_at: now,
        state_changed_at: now,
        promotion_operation_id: None,
    }
}

/// Whether a text is no Item's Display ID and no Alias, ASCII case ignored.
pub open spec fn unused_name(v: StoreView, name: Seq<char>) -> bool {
    &&& forall|i: int|
        0 <= i < v.items.len() ==> folded((#[trigger] v.items[i]).display_id) != folded(name)
    &&& forall|i: int|
        0 <= i < v.aliases.len() ==> folded((#[trigger] v.aliases[i]).value) != folded(name)
}

/// Whether the ID is that of an Epic.
pub open spec fn is_epic(v: StoreView, id: Seq<char>) -> bool {
    exists|i: int|
        0 <= i < v.items.len() && (#[trigger] v.items[i]).id == id && v.items[i].item_class
            == ItemClass::Epic
}

/// Whether the next Mutation has a sequence of its own.
pub open spec fn log_open(v: StoreView) -> bool {
    &&& v.mutation_seq is Some
    &&& v.mutation_seq->0 != i64::MAX
    &&& forall|i: int|
        0 <= i < v.mutations.len() ==> (#[trigger] v.mutations[i]).sequence != v.mutation_seq->0 + 1
}

/// The Item with an ID is a row of the table.
pub proof fn lemma_row(v: StoreView, id: Seq<char>)
    requires
        v.wf(),
        v.has(id),
    ensures
        0 <= v.at(id) < v.items.len(),
        v.items[v.at(id)] == v.item(id),
        v.item(id).id == id,
        forall|i: int| 0 <= i < v.items.len() && (#[trigger] v.items[i]).id == id ==> i == v.at(id),
{
    lemma_has(v, id);
    assert forall|i: int| 0 <= i < v.items.len() && (#[trigger] v.items[i]).id == id implies i
        == v.at(id) by {
        lemma_at(v, i);
    }
}

/// What a row has, the table has.
pub proof fn lemma_row_has(v: StoreView, i: int)
    requires
        v.wf(),
        0 <= i < v.items.len(),
    ensures
        v.has(v.items[i].id),
        v.item(v.items[i].id) == v.items[i],
        v.at(v.items[i].id) == i,
{
    lemma_at(v, i);
}

/// A table in which one row changed, but for its ID.
pub proof fn lemma_one_row(v: StoreView, after: StoreView, id: Seq<char>, item: ItemView)
    requires
        v.wf(),
        v.has(id),
        item.id == id,
        after.items == v.items.update(v.at(id), item),
    ensures
        items_kept_but(v, after, id),
        after.has(id),
        after.item(id) == item,
        after.at(id) == v.at(id),
{
    lemma_row(v, id);
    let i = v.at(id);
    assert forall|k: int| 0 <= k < v.items.len() implies (#[trigger] after.items[k]).id
        == v.items[k].id && (v.items[k].id != id ==> after.items[k] == v.items[k]) by {}
    assert(crate::tables::ids(after.items) =~= crate::tables::ids(v.items));
}

/// An appended request is one Mutation more.
pub proof fn lemma_log_grew(v: StoreView, request: AppendView)
    requires
        crate::tables::mutations_ok(crate::tables::keys(v.items), v.mutations),
        appended(v, request) is Ok,
    ensures
        log_grew(v, appended(v, request)->Ok_0, pending_row(request, v.mutation_seq->0 + 1)),
        appended(v, request)->Ok_0 == (StoreView {
            mutations: appended(v, request)->Ok_0.mutations,
            mutation_seq: appended(v, request)->Ok_0.mutation_seq,
            ..v
        }),
{
    let row = pending_row(request, v.mutation_seq->0 + 1);
    crate::keep::lemma_mutation_place(v.mutations, row.sequence);
    crate::keep::lemma_insert_contains(
        v.mutations,
        crate::tables::mutation_place(v.mutations, row.sequence),
        row,
    );
}

/// A selection is empty exactly where no row meets the condition.
pub proof fn lemma_none_selected<A>(rows: Seq<A>, cond: spec_fn(A) -> bool)
    ensures
        (rows.filter(cond).len() == 0) == (forall|i: int|
            0 <= i < rows.len() ==> !cond(#[trigger] rows[i])),
{
    lemma_filter_contains(rows, cond);
    if rows.filter(cond).len() > 0 {
        let x = rows.filter(cond)[0];
        assert(rows.contains(x));
        let k = choose|k: int| 0 <= k < rows.len() && rows[k] == x;
        assert(cond(rows[k]));
    }
    if rows.filter(cond).len() == 0 {
        assert forall|i: int| 0 <= i < rows.len() implies !cond(#[trigger] rows[i]) by {
            if cond(rows[i]) {
                assert(rows.filter(cond).contains(rows[i]));
            }
        }
    }
}

/// What is bound for a Backend is there already, or is being promoted.
pub proof fn lemma_binding(v: StoreView, id: Seq<char>)
    requires
        v.wf(),
        v.has(id),
    ensures
        v.item(id).origin == Origin::Backend ==> crate::mutations::binding(v, id) is Ok
            && crate::mutations::binding(v, id)->Ok_0.bound(),
        v.item(id).origin == Origin::Local && !being_promoted(v, id) ==> crate::mutations::binding(
            v,
            id,
        ) == Ok::<crate::domain::BindingView, crate::mutations::BindingFault>(
            crate::domain::BindingView::Local,
        ),
        v.item(id).origin == Origin::Local && being_promoted(v, id)
            && crate::mutations::binding(v, id) is Ok ==> crate::mutations::binding(
            v,
            id,
        )->Ok_0.bound(),
{
    lemma_row(v, id);
    let cond = crate::mutations::awaited_promotion_of(id);
    lemma_none_selected(v.mutations, cond);
    assert(v.item(id).admitted());
    if being_promoted(v, id) {
        let i = choose|i: int|
            0 <= i < v.mutations.len() && (#[trigger] v.mutations[i]).item_id == id && makes_object(
                v.mutations[i].mutation_type,
            ) && unsettled(v.mutations[i].state);
        assert(cond(v.mutations[i]));
    } else {
        assert forall|i: int| 0 <= i < v.mutations.len() implies !cond(
            #[trigger] v.mutations[i],
        ) by {}
    }
}

/// Whether one row stands before another.
pub open spec fn in_turn<A>(rows: Seq<A>, a: A, b: A) -> bool {
    exists|i: int, j: int| 0 <= i < j < rows.len() && #[trigger] rows[i] == a && #[trigger] rows[j] == b
}

/// A selection keeps the order of the rows.
pub proof fn lemma_selected<A>(rows: Seq<A>, cond: spec_fn(A) -> bool)
    ensures
        forall|a: int, b: int|
            0 <= a < b < rows.filter(cond).len() ==> in_turn(
                rows,
                #[trigger] rows.filter(cond)[a],
                #[trigger] rows.filter(cond)[b],
            ),
    decreases rows.len(),
{
    reveal(Seq::filter);
    if rows.len() > 0 {
        let rest = rows.drop_last();
        let kept = rest.filter(cond);
        let all = rows.filter(cond);
        lemma_selected(rest, cond);
        lemma_filter_contains(rest, cond);
        assert forall|a: int, b: int| 0 <= a < b < all.len() implies in_turn(
            rows,
            #[trigger] all[a],
            #[trigger] all[b],
        ) by {
            assert(all[a] == kept[a]);
            if b < kept.len() {
                assert(all[b] == kept[b]);
                let (i, j) = choose|i: int, j: int|
                    0 <= i < j < rest.len() && #[trigger] rest[i] == kept[a] && #[trigger] rest[j]
                        == kept[b];
                assert(rows[i] == all[a] && rows[j] == all[b]);
            } else {
                let i = choose|i: int| 0 <= i < rest.len() && rest[i] == kept[a];
                assert(rows[i] == all[a] && rows[rows.len() - 1] == all[b]);
            }
        }
    }
}

/// The first of the rows that meet a condition.
pub proof fn lemma_least<A>(rows: Seq<A>, cond: spec_fn(A) -> bool, n: int) -> (m: int)
    requires
        0 <= n <= rows.len(),
        exists|i: int| 0 <= i < n && cond(#[trigger] rows[i]),
    ensures
        0 <= m < n,
        cond(rows[m]),
        forall|i: int| 0 <= i < m ==> !cond(#[trigger] rows[i]),
    decreases n,
{
    if exists|i: int| 0 <= i < n - 1 && cond(#[trigger] rows[i]) {
        lemma_least(rows, cond, n - 1)
    } else {
        n - 1
    }
}

/// A selection begins with the first row that meets the condition.
pub proof fn lemma_first_selected<A>(rows: Seq<A>, cond: spec_fn(A) -> bool) -> (m: int)
    requires
        rows.filter(cond).len() > 0,
    ensures
        0 <= m < rows.len(),
        cond(rows[m]),
        rows.filter(cond)[0] == rows[m],
        forall|i: int| 0 <= i < m ==> !cond(#[trigger] rows[i]),
{
    lemma_none_selected(rows, cond);
    let m = lemma_least(rows, cond, rows.len() as int);
    let head = rows.take(m);
    lemma_none_selected(head, cond);
    assert forall|i: int| 0 <= i < head.len() implies !cond(#[trigger] head[i]) by {
        assert(head[i] == rows[i]);
    }
    crate::select::lemma_first(rows, cond, m);
    m
}

} // verus!
