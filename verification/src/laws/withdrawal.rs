//! Withdrawing a Promotion Operation.

use vstd::prelude::*;

use crate::domain::{
    classified, BindingView, DependencyClassification, DependencyRejection, MutationState,
    MutationType, Origin,
};
use crate::laws::facts::{
    being_promoted, in_queue, in_turn, lemma_binding, lemma_first_selected, lemma_none_selected,
    lemma_row, lemma_selected, makes_object, unsettled,
};
use crate::mutations::{
    applied_in_operation, awaited_promotion_of, binding, promotion_of, unobserved_in_operation,
    untried_in_operation, BindingFault,
};
use crate::payload::{counterpart_in, json_member, json_strings, promotion_in};
use crate::promotion::cancel::{
    affected, affected_pairs, binding_after, cancel_refusal, cancellable_operation, cancelled,
    judged, undecodable, collateral, withdrawn, CancellationReport, CancelFault, ReportedPromotion,
    UnrepresentableView, WithdrawnMutation,
};
use crate::promotion::graph::{ascending, lemma_pair_lt_total, lemma_pair_lt_trans, pair_lt};
use crate::promotion::recovery::lemma_mutation_target;
use crate::rows::{DependencyView, MutationView};
use crate::select::lemma_filter_contains;
use crate::tables::{waits, StoreView};

verus! {

/// Whether a Mutation is a Promotion that belongs to the operation.
pub open spec fn promotes_for(m: MutationView, operation_id: Seq<char>) -> bool {
    makes_object(m.mutation_type) && m.promotion_operation_id == Some(operation_id)
}

/// Whether a Promotion of the Item, begun by the operation, has not come to its
/// end.
pub open spec fn loses_its_promotion(v: StoreView, operation_id: Seq<char>, id: Seq<char>) -> bool {
    exists|i: int|
        0 <= i < v.mutations.len() && promotes_for(#[trigger] v.mutations[i], operation_id)
            && v.mutations[i].item_id == id && unsettled(v.mutations[i].state)
}

/// Whether a payload holds the Item's ID: under the name, or as the one text of
/// a list.
pub open spec fn holds_id(payload: Seq<char>, member: Seq<char>, id: Seq<char>) -> bool {
    ||| json_member(payload, member) == Some(id)
    ||| json_member(payload, member) is None && json_strings(payload) is Some && json_strings(
        payload,
    )->0.len() == 1 && json_strings(payload)->0[0] == id
}

/// Whether a Mutation speaks of the Item besides its own: the Epic that a
/// Ticket joins, or the Item that one waits for or waits for no more.
pub open spec fn speaks_of(m: MutationView, id: Seq<char>) -> bool {
    ||| m.mutation_type == MutationType::AddTicketToEpic && holds_id(m.payload_json, "epic_id"@, id)
    ||| (m.mutation_type == MutationType::AddDependency || m.mutation_type
        == MutationType::RemoveDependency) && holds_id(m.payload_json, "blocking_id"@, id)
}

/// Whether a Mutation needs the identity that an Item is not going to have.
pub open spec fn loses_its_ground(v: StoreView, operation_id: Seq<char>, m: MutationView) -> bool {
    &&& in_queue(m.state)
    &&& !makes_object(m.mutation_type)
    &&& loses_its_promotion(v, operation_id, m.item_id) || exists|id: Seq<char>| #[trigger]
        loses_its_promotion(v, operation_id, id) && speaks_of(m, id)
}

/// A Mutation that came to its end in the given way.
pub open spec fn ended(m: MutationView, state: MutationState, now: Seq<char>) -> MutationView {
    MutationView { state, state_changed_at: now, ..m }
}

proof fn lemma_withdrawn(v: StoreView, operation_id: Seq<char>, id: Seq<char>)
    ensures
        withdrawn(v, operation_id, id) == loses_its_promotion(v, operation_id, id),
{
    if loses_its_promotion(v, operation_id, id) {
        let i = choose|i: int|
            0 <= i < v.mutations.len() && promotes_for(#[trigger] v.mutations[i], operation_id)
                && v.mutations[i].item_id == id && unsettled(v.mutations[i].state);
        assert(v.mutations[i].item_id == id);
    }
    if withdrawn(v, operation_id, id) {
        let i = choose|i: int|
            0 <= i < v.mutations.len() && (#[trigger] v.mutations[i]).item_id == id
                && v.mutations[i].promotion_operation_id == Some(operation_id)
                && v.mutations[i].mutation_type.promotes() && v.mutations[i].state.is_nonterminal();
        assert(promotes_for(v.mutations[i], operation_id));
    }
}

proof fn lemma_collateral(v: StoreView, operation_id: Seq<char>, m: MutationView)
    ensures
        (collateral(v, operation_id))(m) == loses_its_ground(v, operation_id, m),
{
    assert forall|id: Seq<char>|
        withdrawn(v, operation_id, id) == #[trigger] loses_its_promotion(
            v,
            operation_id,
            id,
        ) by {
        lemma_withdrawn(v, operation_id, id);
    }
    lemma_withdrawn(v, operation_id, m.item_id);
    match counterpart_in(m.mutation_type, m.payload_json) {
        Some(Some(id)) => {
            lemma_withdrawn(v, operation_id, id);
            assert(speaks_of(m, id));
            assert(forall|other: Seq<char>| #[trigger] speaks_of(m, other) ==> other == id);
            assert(loses_its_promotion(v, operation_id, id) == withdrawn(v, operation_id, id));
        },
        _ => {
            assert(forall|other: Seq<char>| !#[trigger] speaks_of(m, other));
        },
    }
}

/// A withdrawal cancels the operation's Promotions that nothing was created for
/// and abandons those of which that is not known. With them it cancels what
/// else waits and concerns an Item that loses its Promotion, whichever
/// operation queued it, or none. Nothing else changes, and what a Mutation
/// recorded of an attempt stays with it.
pub proof fn law_what_a_withdrawal_writes(
    v: StoreView,
    operation_id: Seq<char>,
    now: Seq<char>,
    i: int,
)
    requires
        0 <= i < v.mutations.len(),
    ensures
        ({
            let after = cancelled(v, operation_id, now);
            let m = v.mutations[i];
            &&& after == StoreView { mutations: after.mutations, ..v }
            &&& after.mutations.len() == v.mutations.len()
            &&& promotes_for(m, operation_id) && in_queue(m.state) ==> after.mutations[i] == ended(
                m,
                MutationState::Cancelled,
                now,
            )
            &&& promotes_for(m, operation_id) && m.state == MutationState::Applying
                ==> after.mutations[i] == ended(m, MutationState::Abandoned, now)
            &&& loses_its_ground(v, operation_id, m) ==> after.mutations[i] == ended(
                m,
                MutationState::Cancelled,
                now,
            )
            &&& !(promotes_for(m, operation_id) && unsettled(m.state)) && !loses_its_ground(
                v,
                operation_id,
                m,
            ) ==> after.mutations[i] == m
        }),
{
    lemma_collateral(v, operation_id, v.mutations[i]);
}

/// After a withdrawal nothing waits that concerns an Item whose Promotion was
/// withdrawn, as its own Item or as the one that it speaks of, and no Promotion
/// of the operation is left unsettled.
pub proof fn law_a_withdrawal_leaves_nothing_behind(
    v: StoreView,
    operation_id: Seq<char>,
    now: Seq<char>,
    id: Seq<char>,
    i: int,
)
    requires
        loses_its_promotion(v, operation_id, id),
        0 <= i < v.mutations.len(),
    ensures
        ({
            let m = cancelled(v, operation_id, now).mutations[i];
            &&& promotes_for(m, operation_id) ==> !unsettled(m.state)
            &&& (m.item_id == id || speaks_of(m, id)) && !makes_object(m.mutation_type)
                ==> !in_queue(m.state)
        }),
{
    law_what_a_withdrawal_writes(v, operation_id, now, i);
    let old_m = v.mutations[i];
    let m = cancelled(v, operation_id, now).mutations[i];
    assert(m.item_id == old_m.item_id && m.payload_json == old_m.payload_json
        && m.mutation_type == old_m.mutation_type);
    if (m.item_id == id || speaks_of(m, id)) && !makes_object(m.mutation_type) && in_queue(
        old_m.state,
    ) {
        assert(speaks_of(m, id) == speaks_of(old_m, id));
        assert(loses_its_ground(v, operation_id, old_m));
    }
}

/// Whether a line of the report is about a Promotion.
pub open spec fn tells_of(line: ReportedPromotion, v: StoreView, m: MutationView) -> bool {
    &&& line.sequence == m.sequence
    &&& line.item_class == m.item_class
    &&& exists|k: int|
        0 <= k < v.items.len() && (#[trigger] v.items[k]).id == m.item_id && v.items[k].display_id
            == line.display_id@
}

/// Whether a line of the report is about a Mutation taken along.
pub open spec fn tells_of_taken(
    line: WithdrawnMutation,
    v: StoreView,
    operation_id: Seq<char>,
    m: MutationView,
) -> bool {
    &&& line.sequence == m.sequence
    &&& line.mutation_type == m.mutation_type
    &&& line.target_cancelled == loses_its_promotion(v, operation_id, m.item_id)
    &&& exists|k: int|
        0 <= k < v.items.len() && (#[trigger] v.items[k]).id == m.item_id && v.items[k].display_id
            == line.target_display_id@
}

/// Whether one of the lines is about the Promotion.
pub open spec fn is_told(lines: Seq<ReportedPromotion>, v: StoreView, m: MutationView) -> bool {
    exists|k: int| 0 <= k < lines.len() && tells_of(#[trigger] lines[k], v, m)
}

/// Whether the lines are about the Promotions of the operation in the given
/// states, each once and in order.
pub open spec fn tells_all(
    lines: Seq<ReportedPromotion>,
    v: StoreView,
    operation_id: Seq<char>,
    states: Set<MutationState>,
) -> bool {
    &&& forall|i: int|
        0 <= i < v.mutations.len() && promotes_for(#[trigger] v.mutations[i], operation_id)
            && states.contains(v.mutations[i].state) ==> is_told(lines, v, v.mutations[i])
    &&& forall|k: int| 0 <= k < lines.len() ==> is_of(#[trigger] lines[k], v, operation_id, states)
    &&& forall|a: int, b: int|
        0 <= a < b < lines.len() ==> (#[trigger] lines[a]).sequence < (#[trigger] lines[b]).sequence
}

/// Whether a line is about a Promotion of the operation in one of the states.
pub open spec fn is_of(
    line: ReportedPromotion,
    v: StoreView,
    operation_id: Seq<char>,
    states: Set<MutationState>,
) -> bool {
    exists|i: int|
        0 <= i < v.mutations.len() && promotes_for(#[trigger] v.mutations[i], operation_id)
            && states.contains(v.mutations[i].state) && tells_of(line, v, v.mutations[i])
}

/// Whether a line is about a Mutation that loses its ground.
pub open spec fn is_taken(line: WithdrawnMutation, v: StoreView, operation_id: Seq<char>) -> bool {
    exists|i: int|
        0 <= i < v.mutations.len() && loses_its_ground(v, operation_id, #[trigger] v.mutations[i])
            && tells_of_taken(line, v, operation_id, v.mutations[i])
}

/// Whether one of the lines is about the Mutation taken along.
pub open spec fn is_told_taken(
    lines: Seq<WithdrawnMutation>,
    v: StoreView,
    operation_id: Seq<char>,
    m: MutationView,
) -> bool {
    exists|k: int| 0 <= k < lines.len() && tells_of_taken(#[trigger] lines[k], v, operation_id, m)
}

proof fn lemma_tells_all(
    lines: Seq<ReportedPromotion>,
    v: StoreView,
    operation_id: Seq<char>,
    states: Set<MutationState>,
    cond: spec_fn(MutationView) -> bool,
)
    requires
        v.wf(),
        forall|m: MutationView| #[trigger]
            cond(m) == (promotes_for(m, operation_id) && states.contains(m.state)),
        lines.len() == v.mutations.filter(cond).len(),
        forall|k: int|
            0 <= k < lines.len() ==> (#[trigger] lines[k]).shows(v, v.mutations.filter(cond)[k]),
    ensures
        tells_all(lines, v, operation_id, states),
{
    let rows = v.mutations.filter(cond);
    lemma_filter_contains(v.mutations, cond);
    lemma_selected(v.mutations, cond);
    assert forall|i: int|
        0 <= i < v.mutations.len() && promotes_for(#[trigger] v.mutations[i], operation_id)
            && states.contains(v.mutations[i].state) implies is_told(lines, v, v.mutations[i]) by {
        assert(cond(v.mutations[i]));
        let k = choose|k: int| 0 <= k < rows.len() && rows[k] == v.mutations[i];
        assert(lines[k].shows(v, rows[k]));
        lemma_mutation_target(v, i);
        lemma_row(v, v.mutations[i].item_id);
        assert(tells_of(lines[k], v, v.mutations[i]));
    }
    assert forall|k: int| 0 <= k < lines.len() implies is_of(
        #[trigger] lines[k],
        v,
        operation_id,
        states,
    ) by {
        let i = choose|i: int| 0 <= i < v.mutations.len() && v.mutations[i] == rows[k];
        assert(cond(v.mutations[i]));
        assert(lines[k].shows(v, rows[k]));
        lemma_mutation_target(v, i);
        lemma_row(v, v.mutations[i].item_id);
        assert(tells_of(lines[k], v, v.mutations[i]));
        assert(promotes_for(v.mutations[i], operation_id));
    }
    assert forall|a: int, b: int| 0 <= a < b < lines.len() implies (#[trigger] lines[a]).sequence
        < (#[trigger] lines[b]).sequence by {
        assert(lines[a].shows(v, rows[a]) && lines[b].shows(v, rows[b]));
        assert(in_turn(v.mutations, rows[a], rows[b]));
    }
}

/// The report names each Promotion by what became of it and every Mutation
/// taken along, none besides, each with its Item's Display ID and in the order
/// of the log; and of those taken along it says whether their own Item is one
/// that lost its Promotion.
pub proof fn law_what_a_withdrawal_reports(
    v: StoreView,
    operation_id: Seq<char>,
    report: CancellationReport,
)
    requires
        v.wf(),
        report.tells(v, operation_id),
    ensures
        tells_all(
            report.cancelled_promotions@,
            v,
            operation_id,
            set![MutationState::Pending, MutationState::Failed],
        ),
        tells_all(report.abandoned_promotions@, v, operation_id, set![MutationState::Applying]),
        tells_all(report.applied_promotions@, v, operation_id, set![MutationState::Applied]),
        forall|i: int|
            0 <= i < v.mutations.len() && loses_its_ground(
                v,
                operation_id,
                #[trigger] v.mutations[i],
            ) ==> is_told_taken(report.withdrawn@, v, operation_id, v.mutations[i]),
        forall|k: int|
            0 <= k < report.withdrawn@.len() ==> is_taken(
                #[trigger] report.withdrawn@[k],
                v,
                operation_id,
            ),
        forall|a: int, b: int|
            0 <= a < b < report.withdrawn@.len() ==> (#[trigger] report.withdrawn@[a]).sequence < (
            #[trigger] report.withdrawn@[b]).sequence,
{
    lemma_tells_all(
        report.cancelled_promotions@,
        v,
        operation_id,
        set![MutationState::Pending, MutationState::Failed],
        untried_in_operation(operation_id),
    );
    lemma_tells_all(
        report.abandoned_promotions@,
        v,
        operation_id,
        set![MutationState::Applying],
        unobserved_in_operation(operation_id),
    );
    lemma_tells_all(
        report.applied_promotions@,
        v,
        operation_id,
        set![MutationState::Applied],
        applied_in_operation(operation_id),
    );
    let cond = collateral(v, operation_id);
    let rows = v.mutations.filter(cond);
    let lines = report.withdrawn@;
    lemma_filter_contains(v.mutations, cond);
    lemma_selected(v.mutations, cond);
    assert forall|i: int|
        0 <= i < v.mutations.len() && loses_its_ground(
            v,
            operation_id,
            #[trigger] v.mutations[i],
        ) implies is_told_taken(lines, v, operation_id, v.mutations[i]) by {
        lemma_collateral(v, operation_id, v.mutations[i]);
        let k = choose|k: int| 0 <= k < rows.len() && rows[k] == v.mutations[i];
        assert(lines[k].shows(v, operation_id, rows[k]));
        lemma_mutation_target(v, i);
        lemma_withdrawn(v, operation_id, v.mutations[i].item_id);
        lemma_row(v, v.mutations[i].item_id);
        assert(tells_of_taken(lines[k], v, operation_id, v.mutations[i]));
    }
    assert forall|k: int| 0 <= k < lines.len() implies is_taken(
        #[trigger] lines[k],
        v,
        operation_id,
    ) by {
        let i = choose|i: int| 0 <= i < v.mutations.len() && v.mutations[i] == rows[k];
        lemma_collateral(v, operation_id, v.mutations[i]);
        assert(cond(rows[k]));
        assert(lines[k].shows(v, operation_id, rows[k]));
        lemma_mutation_target(v, i);
        lemma_withdrawn(v, operation_id, v.mutations[i].item_id);
        lemma_row(v, v.mutations[i].item_id);
        assert(tells_of_taken(lines[k], v, operation_id, v.mutations[i]));
        assert(loses_its_ground(v, operation_id, v.mutations[i]));
    }
    assert forall|a: int, b: int| 0 <= a < b < lines.len() implies (#[trigger] lines[a]).sequence
        < (#[trigger] lines[b]).sequence by {
        assert(lines[a].shows(v, operation_id, rows[a]) && lines[b].shows(
            v,
            operation_id,
            rows[b],
        ));
        assert(in_turn(v.mutations, rows[a], rows[b]));
    }
}

/// Whether a Mutation is a Promotion of the Item.
pub open spec fn promotes_item(m: MutationView, id: Seq<char>) -> bool {
    makes_object(m.mutation_type) && m.item_id == id
}

/// A withdrawal that is granted takes the operation of a Promotion of the very
/// Item: of the unsettled one where there is one, and then that is the only
/// one, else of the latest. Something of the operation is unsettled.
pub proof fn law_which_operation_is_withdrawn(v: StoreView, id: Seq<char>)
    requires
        v.wf(),
        cancel_refusal(v, id) is None,
    ensures
        ({
            let operation_id = cancellable_operation(v, id)->Ok_0;
            &&& cancellable_operation(v, id) is Ok
            &&& exists|i: int|
                0 <= i < v.mutations.len() && promotes_item(#[trigger] v.mutations[i], id)
                    && v.mutations[i].promotion_operation_id == Some(operation_id) && forall|j: int|
                    i < j < v.mutations.len() && promotes_item(#[trigger] v.mutations[j], id)
                        ==> unsettled(v.mutations[i].state)
            &&& forall|i: int|
                0 <= i < v.mutations.len() && promotes_item(#[trigger] v.mutations[i], id)
                    && unsettled(v.mutations[i].state) ==> v.mutations[i].promotion_operation_id
                    == Some(operation_id)
            &&& forall|i: int, j: int|
                0 <= i < j < v.mutations.len() && promotes_item(#[trigger] v.mutations[i], id)
                    && promotes_item(#[trigger] v.mutations[j], id) && unsettled(
                    v.mutations[i].state,
                ) ==> !unsettled(v.mutations[j].state)
            &&& exists|i: int|
                0 <= i < v.mutations.len() && promotes_for(#[trigger] v.mutations[i], operation_id)
                    && unsettled(v.mutations[i].state)
        }),
{
    let operation_id = cancellable_operation(v, id)->Ok_0;
    let open = awaited_promotion_of(id);
    let all = promotion_of(id);
    let rows = v.mutations.filter(open);
    lemma_filter_contains(v.mutations, open);
    lemma_filter_contains(v.mutations, all);
    lemma_selected(v.mutations, open);
    lemma_selected(v.mutations, all);
    assert(forall|m: MutationView| #[trigger] open(m) == (promotes_item(m, id) && unsettled(m.state)));
    assert(forall|m: MutationView| #[trigger] all(m) == promotes_item(m, id));
    lemma_filter_contains(v.mutations, untried_in_operation(operation_id));
    lemma_filter_contains(v.mutations, unobserved_in_operation(operation_id));
    let m = if v.mutations.filter(untried_in_operation(operation_id)).len() > 0 {
        v.mutations.filter(untried_in_operation(operation_id))[0]
    } else {
        v.mutations.filter(unobserved_in_operation(operation_id))[0]
    };
    assert(v.mutations.contains(m));
    let k = choose|k: int| 0 <= k < v.mutations.len() && v.mutations[k] == m;
    assert(promotes_for(v.mutations[k], operation_id));
    assert forall|i: int, j: int|
        0 <= i < j < v.mutations.len() && promotes_item(#[trigger] v.mutations[i], id)
            && promotes_item(#[trigger] v.mutations[j], id) && unsettled(
            v.mutations[i].state,
        ) implies !unsettled(v.mutations[j].state) by {
        if unsettled(v.mutations[j].state) {
            assert(open(v.mutations[i]) && open(v.mutations[j]));
            assert(rows.contains(v.mutations[i]) && rows.contains(v.mutations[j]));
        }
    }
    if rows.len() == 1 {
        let i = choose|i: int| 0 <= i < v.mutations.len() && v.mutations[i] == rows[0];
        assert(open(rows[0]));
        assert(promotes_item(v.mutations[i], id));
        assert forall|j: int|
            0 <= j < v.mutations.len() && promotes_item(#[trigger] v.mutations[j], id) && unsettled(
                v.mutations[j].state,
            ) implies v.mutations[j].promotion_operation_id == Some(operation_id) by {
            assert(open(v.mutations[j]));
            assert(rows.contains(v.mutations[j]));
        }
    } else {
        let last = v.mutations.filter(all).last();
        assert forall|j: int|
            0 <= j < v.mutations.len() && promotes_item(#[trigger] v.mutations[j], id) && unsettled(
                v.mutations[j].state,
            ) implies v.mutations[j].promotion_operation_id == Some(operation_id) by {
            assert(open(v.mutations[j]));
            assert(rows.contains(v.mutations[j]));
        }
        assert(v.mutations.contains(last));
        let i = choose|i: int| 0 <= i < v.mutations.len() && v.mutations[i] == last;
        assert(all(last));
        assert(promotes_item(v.mutations[i], id));
        assert forall|j: int|
            i < j < v.mutations.len() && promotes_item(
                #[trigger] v.mutations[j],
                id,
            ) implies unsettled(v.mutations[i].state) by {
            assert(all(v.mutations[j]));
            let picks = v.mutations.filter(all);
            assert(picks.contains(v.mutations[j]));
            let b = choose|b: int| 0 <= b < picks.len() && picks[b] == v.mutations[j];
            if b < picks.len() - 1 {
                assert(in_turn(v.mutations, picks[b], picks[picks.len() - 1]));
            }
        }
    }
}

/// One pair more, in its place.
proof fn lemma_put_in_order(
    pairs: Seq<(Seq<char>, Seq<char>)>,
    p: (Seq<char>, Seq<char>),
) -> (r: Seq<(Seq<char>, Seq<char>)>)
    requires
        ascending(pairs),
    ensures
        ascending(r),
        forall|q: (Seq<char>, Seq<char>)| #[trigger] r.contains(q) == (pairs.contains(q) || q == p),
    decreases pairs.len(),
{
    if pairs.len() == 0 {
        let r = seq![p];
        assert(r[0] == p);
        assert forall|q: (Seq<char>, Seq<char>)| #[trigger]
            r.contains(q) == (pairs.contains(q) || q == p) by {}
        r
    } else if pairs.last() == p {
        assert(pairs.contains(pairs[pairs.len() - 1]));
        pairs
    } else if pair_lt(pairs.last(), p) {
        let r = pairs.push(p);
        assert forall|i: int, j: int| 0 <= i < j < r.len() implies pair_lt(
            #[trigger] r[i],
            #[trigger] r[j],
        ) by {
            if j == pairs.len() && i < pairs.len() - 1 {
                lemma_pair_lt_trans(pairs[i], pairs.last(), p);
            }
        }
        assert forall|q: (Seq<char>, Seq<char>)| #[trigger]
            r.contains(q) == (pairs.contains(q) || q == p) by {
            if pairs.contains(q) {
                let i = choose|i: int| 0 <= i < pairs.len() && pairs[i] == q;
                assert(r[i] == q);
            }
            assert(r[pairs.len() as int] == p);
        }
        r
    } else {
        let rest = pairs.drop_last();
        let last = pairs.last();
        assert(ascending(rest));
        let below = lemma_put_in_order(rest, p);
        let r = below.push(last);
        lemma_pair_lt_total(p, last);
        assert forall|i: int, j: int| 0 <= i < j < r.len() implies pair_lt(
            #[trigger] r[i],
            #[trigger] r[j],
        ) by {
            if j == below.len() {
                assert(below.contains(below[i]));
                if rest.contains(below[i]) {
                    let k = choose|k: int| 0 <= k < rest.len() && rest[k] == below[i];
                    assert(pair_lt(pairs[k], pairs[pairs.len() - 1]));
                }
            }
        }
        assert forall|q: (Seq<char>, Seq<char>)| #[trigger]
            r.contains(q) == (pairs.contains(q) || q == p) by {
            assert(below.contains(q) == (rest.contains(q) || q == p));
            if r.contains(q) {
                let i = choose|i: int| 0 <= i < r.len() && r[i] == q;
                if i < below.len() {
                    assert(below[i] == q);
                    if rest.contains(q) {
                        let k = choose|k: int| 0 <= k < rest.len() && rest[k] == q;
                        assert(pairs[k] == q);
                    }
                } else {
                    assert(pairs[pairs.len() - 1] == q);
                }
            }
            if pairs.contains(q) {
                let i = choose|i: int| 0 <= i < pairs.len() && pairs[i] == q;
                if i < rest.len() {
                    assert(rest[i] == q);
                    let k = choose|k: int| 0 <= k < below.len() && below[k] == q;
                    assert(r[k] == q);
                } else {
                    assert(r[below.len() as int] == q);
                }
            }
            if q == p {
                let k = choose|k: int| 0 <= k < below.len() && below[k] == q;
                assert(r[k] == q);
            }
        }
        r
    }
}

/// The pairs among the first that meet a condition, in order.
proof fn lemma_in_order(
    pairs: Seq<(Seq<char>, Seq<char>)>,
    cond: spec_fn((Seq<char>, Seq<char>)) -> bool,
) -> (r: Seq<(Seq<char>, Seq<char>)>)
    ensures
        ascending(r),
        forall|q: (Seq<char>, Seq<char>)| #[trigger] r.contains(q) == (pairs.contains(q) && cond(q)),
    decreases pairs.len(),
{
    if pairs.len() == 0 {
        Seq::empty()
    } else {
        let rest = pairs.drop_last();
        let below = lemma_in_order(rest, cond);
        assert forall|q: (Seq<char>, Seq<char>)| #[trigger]
            pairs.contains(q) == (rest.contains(q) || q == pairs.last()) by {
            if pairs.contains(q) {
                let i = choose|i: int| 0 <= i < pairs.len() && pairs[i] == q;
                if i < rest.len() {
                    assert(rest[i] == q);
                }
            }
            if rest.contains(q) {
                let i = choose|i: int| 0 <= i < rest.len() && rest[i] == q;
                assert(pairs[i] == q);
            }
            assert(pairs[pairs.len() - 1] == pairs.last());
        }
        if cond(pairs.last()) {
            let r = lemma_put_in_order(below, pairs.last());
            assert forall|q: (Seq<char>, Seq<char>)| #[trigger]
                r.contains(q) == (pairs.contains(q) && cond(q)) by {
                assert(below.contains(q) == (rest.contains(q) && cond(q)));
                assert(pairs.contains(q) == (rest.contains(q) || q == pairs.last()));
            }
            r
        } else {
            assert forall|q: (Seq<char>, Seq<char>)| #[trigger]
                below.contains(q) == (pairs.contains(q) && cond(q)) by {
                assert(pairs.contains(q) == (rest.contains(q) || q == pairs.last()));
            }
            below
        }
    }
}

/// The Dependencies with a withdrawn end are those of the table.
proof fn lemma_affected(v: StoreView, operation_id: Seq<char>)
    ensures
        ascending(affected_pairs(v, operation_id)),
        forall|p: (Seq<char>, Seq<char>)| #[trigger]
            affected_pairs(v, operation_id).contains(p) == affected(v, operation_id, p),
{
    let cond = |p: (Seq<char>, Seq<char>)| affected(v, operation_id, p);
    let r = lemma_in_order(waits(v.dependencies), cond);
    assert forall|p: (Seq<char>, Seq<char>)| #[trigger] r.contains(p) == cond(p) by {}
    assert(ascending(r) && forall|p: (Seq<char>, Seq<char>)| #[trigger] r.contains(p) == cond(p));
}

/// Whether the Item is on a Backend or on its way to one, the operation set
/// aside.
pub open spec fn stays_bound(v: StoreView, operation_id: Seq<char>, id: Seq<char>) -> bool {
    &&& !loses_its_promotion(v, operation_id, id)
    &&& (exists|k: int|
        0 <= k < v.items.len() && (#[trigger] v.items[k]).id == id && v.items[k].origin
            == Origin::Backend) || being_promoted(v, id)
}

/// Whether the Dependency would have an Item that stays bound wait for one that
/// loses its Promotion.
pub open spec fn left_hanging(v: StoreView, operation_id: Seq<char>, d: DependencyView) -> bool {
    stays_bound(v, operation_id, d.blocked_id) && loses_its_promotion(
        v,
        operation_id,
        d.blocking_id,
    )
}

/// Whether a line of the refusal is about the Dependency.
pub open spec fn complains_of(line: UnrepresentableView, v: StoreView, d: DependencyView) -> bool {
    &&& line.rejection == DependencyRejection::BackendBlockedLocalBlocking
    &&& exists|k: int|
        0 <= k < v.items.len() && (#[trigger] v.items[k]).id == d.blocked_id
            && v.items[k].display_id == line.blocked_display_id
    &&& exists|k: int|
        0 <= k < v.items.len() && (#[trigger] v.items[k]).id == d.blocking_id
            && v.items[k].display_id == line.blocking_display_id
}

/// Whether one of the lines is about the Dependency.
pub open spec fn is_complained_of(
    lines: Seq<UnrepresentableView>,
    v: StoreView,
    d: DependencyView,
) -> bool {
    exists|k: int| 0 <= k < lines.len() && complains_of(#[trigger] lines[k], v, d)
}

/// Whether a line is about a Dependency that would be left hanging.
pub open spec fn is_due(line: UnrepresentableView, v: StoreView, operation_id: Seq<char>) -> bool {
    exists|d: int|
        0 <= d < v.dependencies.len() && left_hanging(v, operation_id, #[trigger] v.dependencies[d])
            && complains_of(line, v, v.dependencies[d])
}

/// Whether a Mutation waits that should speak of a further Item and does not
/// say of which.
pub open spec fn speaks_unclearly(m: MutationView) -> bool {
    &&& in_queue(m.state)
    &&& m.mutation_type == MutationType::AddTicketToEpic || m.mutation_type
        == MutationType::AddDependency || m.mutation_type == MutationType::RemoveDependency
    &&& forall|id: Seq<char>| !#[trigger] speaks_of(m, id)
}

/// The Dependency that a pair of the table stands for.
proof fn lemma_wait(v: StoreView, p: (Seq<char>, Seq<char>)) -> (d: int)
    requires
        v.wf(),
        waits(v.dependencies).contains(p),
    ensures
        0 <= d < v.dependencies.len(),
        v.dependencies[d].blocked_id == p.0,
        v.dependencies[d].blocking_id == p.1,
        v.has(p.0),
        v.has(p.1),
{
    let d = choose|d: int| 0 <= d < waits(v.dependencies).len() && waits(v.dependencies)[d] == p;
    assert(v.dependencies[d].blocked_id == p.0);
    d
}

/// Whether the earliest unsettled Promotion of the Item does not say which
/// Backend it is for.
pub open spec fn promoted_nowhere(v: StoreView, id: Seq<char>) -> bool {
    exists|i: int|
        0 <= i < v.mutations.len() && promotes_item(#[trigger] v.mutations[i], id) && unsettled(
            v.mutations[i].state,
        ) && promotion_in(v.mutations[i].payload_json) is None
}

proof fn lemma_bound_after(v: StoreView, operation_id: Seq<char>, id: Seq<char>)
    requires
        v.wf(),
        v.has(id),
    ensures
        match binding_after(v, operation_id, id) {
            Ok(found) => found.bound() == stays_bound(v, operation_id, id),
            Err(fault) => fault == BindingFault::Payload && promoted_nowhere(v, id),
        },
{
    lemma_withdrawn(v, operation_id, id);
    lemma_binding(v, id);
    lemma_row(v, id);
    assert(v.items[v.at(id)].id == id);
    assert(v.item(id).admitted());
    if !withdrawn(v, operation_id, id) && binding(v, id) is Err {
        let rows = v.mutations.filter(awaited_promotion_of(id));
        lemma_filter_contains(v.mutations, awaited_promotion_of(id));
        assert(v.mutations.contains(rows[0]));
        let i = choose|i: int| 0 <= i < v.mutations.len() && v.mutations[i] == rows[0];
        assert((awaited_promotion_of(id))(rows[0]));
        assert(promotes_item(v.mutations[i], id));
    }
}

/// What is found of one pair.
proof fn lemma_verdict(v: StoreView, operation_id: Seq<char>, p: (Seq<char>, Seq<char>)) -> (d: int)
    requires
        v.wf(),
        affected(v, operation_id, p),
    ensures
        0 <= d < v.dependencies.len(),
        v.dependencies[d].blocked_id == p.0,
        v.dependencies[d].blocking_id == p.1,
        match (binding_after(v, operation_id, p.0), binding_after(v, operation_id, p.1)) {
            (Ok(blocked), Ok(blocking)) => match classified(blocked, blocking) {
                DependencyClassification::Rejected(rejection) => {
                    &&& left_hanging(v, operation_id, v.dependencies[d])
                    &&& complains_of(
                        UnrepresentableView {
                            blocked_display_id: v.item(p.0).display_id,
                            blocking_display_id: v.item(p.1).display_id,
                            rejection,
                        },
                        v,
                        v.dependencies[d],
                    )
                },
                _ => !left_hanging(v, operation_id, v.dependencies[d]),
            },
            (Ok(_), Err(fault)) => fault == BindingFault::Payload && unclear_end(
                v,
                operation_id,
                v.dependencies[d],
            ),
            (Err(fault), _) => fault == BindingFault::Payload && unclear_end(
                v,
                operation_id,
                v.dependencies[d],
            ),
        },
{
    let d = lemma_wait(v, p);
    lemma_bound_after(v, operation_id, p.0);
    lemma_bound_after(v, operation_id, p.1);
    lemma_withdrawn(v, operation_id, p.0);
    lemma_withdrawn(v, operation_id, p.1);
    lemma_row(v, p.0);
    lemma_row(v, p.1);
    assert(v.items[v.at(p.0)].id == p.0 && v.items[v.at(p.1)].id == p.1);
    d
}

/// A Dependency is told by its ends.
proof fn lemma_same_complaint(
    line: UnrepresentableView,
    v: StoreView,
    operation_id: Seq<char>,
    d: DependencyView,
    e: DependencyView,
)
    requires
        d.blocked_id == e.blocked_id,
        d.blocking_id == e.blocking_id,
    ensures
        complains_of(line, v, d) == complains_of(line, v, e),
        left_hanging(v, operation_id, d) == left_hanging(v, operation_id, e),
{
}

/// The line for a pair that cannot be represented, if it cannot.
spec fn line_for(
    v: StoreView,
    operation_id: Seq<char>,
    p: (Seq<char>, Seq<char>),
) -> Option<UnrepresentableView> {
    match (binding_after(v, operation_id, p.0), binding_after(v, operation_id, p.1)) {
        (Ok(blocked), Ok(blocking)) => match classified(blocked, blocking) {
            DependencyClassification::Rejected(rejection) => Some(
                UnrepresentableView {
                    blocked_display_id: v.item(p.0).display_id,
                    blocking_display_id: v.item(p.1).display_id,
                    rejection,
                },
            ),
            _ => None,
        },
        _ => None,
    }
}

spec fn cannot_tell(v: StoreView, operation_id: Seq<char>, p: (Seq<char>, Seq<char>)) -> bool {
    binding_after(v, operation_id, p.0) is Err || binding_after(v, operation_id, p.1) is Err
}

/// What is found of pairs is what is found of each.
proof fn lemma_lines(v: StoreView, operation_id: Seq<char>, pairs: Seq<(Seq<char>, Seq<char>)>)
    ensures
        match judged(v, operation_id, pairs) {
            Ok(list) => {
                &&& forall|k: int|
                    0 <= k < list.len() ==> exists|j: int|
                        0 <= j < pairs.len() && line_for(v, operation_id, #[trigger] pairs[j]) == Some(
                            #[trigger] list[k],
                        )
                &&& forall|j: int|
                    0 <= j < pairs.len() && line_for(v, operation_id, #[trigger] pairs[j]) is Some
                        ==> list.contains(line_for(v, operation_id, pairs[j])->0)
            },
            Err(fault) => exists|j: int|
                0 <= j < pairs.len() && cannot_tell(v, operation_id, #[trigger] pairs[j]) && (
                binding_after(v, operation_id, pairs[j].0) == Err::<BindingView, BindingFault>(
                    fault,
                ) || binding_after(v, operation_id, pairs[j].1) == Err::<BindingView, BindingFault>(
                    fault,
                )),
        },
    decreases pairs.len(),
{
    if pairs.len() > 0 {
        let rest = pairs.drop_last();
        lemma_lines(v, operation_id, rest);
        assert(pairs[pairs.len() - 1] == pairs.last());
        match judged(v, operation_id, pairs) {
            Ok(list) => {
                let before = judged(v, operation_id, rest)->Ok_0;
                assert forall|k: int| 0 <= k < list.len() implies exists|j: int|
                    0 <= j < pairs.len() && line_for(v, operation_id, #[trigger] pairs[j]) == Some(
                        #[trigger] list[k],
                    ) by {
                    if k < before.len() {
                        assert(list[k] == before[k]);
                        let j = choose|j: int|
                            0 <= j < rest.len() && line_for(v, operation_id, #[trigger] rest[j])
                                == Some(before[k]);
                        assert(pairs[j] == rest[j]);
                    } else {
                        assert(line_for(v, operation_id, pairs[pairs.len() - 1]) == Some(list[k]));
                    }
                }
                assert forall|j: int|
                    0 <= j < pairs.len() && line_for(
                        v,
                        operation_id,
                        #[trigger] pairs[j],
                    ) is Some implies list.contains(line_for(v, operation_id, pairs[j])->0) by {
                    if j < rest.len() {
                        assert(rest[j] == pairs[j]);
                        let x = line_for(v, operation_id, pairs[j])->0;
                        assert(before.contains(x));
                        let n = choose|n: int| 0 <= n < before.len() && before[n] == x;
                        assert(list[n] == x);
                    } else {
                        assert(list[before.len() as int] == line_for(v, operation_id, pairs[j])->0);
                    }
                }
            },
            Err(fault) => {
                if judged(v, operation_id, rest) is Err {
                    let j = choose|j: int|
                        0 <= j < rest.len() && cannot_tell(v, operation_id, #[trigger] rest[j]) && (
                        binding_after(v, operation_id, rest[j].0) == Err::<
                            BindingView,
                            BindingFault,
                        >(fault) || binding_after(v, operation_id, rest[j].1) == Err::<
                            BindingView,
                            BindingFault,
                        >(fault));
                    assert(pairs[j] == rest[j]);
                } else {
                    assert(cannot_tell(v, operation_id, pairs[pairs.len() - 1]));
                }
            },
        }
    }
}

proof fn lemma_judged(v: StoreView, operation_id: Seq<char>, pairs: Seq<(Seq<char>, Seq<char>)>)
    requires
        v.wf(),
        forall|k: int| 0 <= k < pairs.len() ==> affected(v, operation_id, #[trigger] pairs[k]),
    ensures
        match judged(v, operation_id, pairs) {
            Ok(list) => {
                &&& forall|k: int| 0 <= k < list.len() ==> is_due(#[trigger] list[k], v, operation_id)
                &&& forall|d: int|
                    0 <= d < v.dependencies.len() && left_hanging(
                        v,
                        operation_id,
                        #[trigger] v.dependencies[d],
                    ) && pairs.contains(
                        (v.dependencies[d].blocked_id, v.dependencies[d].blocking_id),
                    ) ==> is_complained_of(list, v, v.dependencies[d])
            },
            Err(fault) => fault == BindingFault::Payload && exists|d: int|
                0 <= d < v.dependencies.len() && unclear_end(
                    v,
                    operation_id,
                    #[trigger] v.dependencies[d],
                ),
        },
{
    lemma_lines(v, operation_id, pairs);
    match judged(v, operation_id, pairs) {
        Ok(list) => {
            assert forall|k: int| 0 <= k < list.len() implies is_due(
                #[trigger] list[k],
                v,
                operation_id,
            ) by {
                let j = choose|j: int|
                    0 <= j < pairs.len() && line_for(v, operation_id, #[trigger] pairs[j]) == Some(
                        list[k],
                    );
                let at = lemma_verdict(v, operation_id, pairs[j]);
                assert(left_hanging(v, operation_id, v.dependencies[at]));
                assert(complains_of(list[k], v, v.dependencies[at]));
            }
            assert forall|d: int|
                0 <= d < v.dependencies.len() && left_hanging(
                    v,
                    operation_id,
                    #[trigger] v.dependencies[d],
                ) && pairs.contains(
                    (v.dependencies[d].blocked_id, v.dependencies[d].blocking_id),
                ) implies is_complained_of(list, v, v.dependencies[d]) by {
                lemma_complained(v, operation_id, pairs, list, d);
            }
        },
        Err(fault) => {
            let j = choose|j: int|
                0 <= j < pairs.len() && cannot_tell(v, operation_id, #[trigger] pairs[j]) && (
                binding_after(v, operation_id, pairs[j].0) == Err::<BindingView, BindingFault>(
                    fault,
                ) || binding_after(v, operation_id, pairs[j].1) == Err::<BindingView, BindingFault>(
                    fault,
                ));
            let at = lemma_verdict(v, operation_id, pairs[j]);
            let end = lemma_wait(v, pairs[j]);
            lemma_bound_after(v, operation_id, pairs[j].0);
            lemma_bound_after(v, operation_id, pairs[j].1);
            assert(unclear_end(v, operation_id, v.dependencies[at]));
        },
    }
}

proof fn lemma_complained(
    v: StoreView,
    operation_id: Seq<char>,
    pairs: Seq<(Seq<char>, Seq<char>)>,
    list: Seq<UnrepresentableView>,
    d: int,
)
    requires
        v.wf(),
        forall|k: int| 0 <= k < pairs.len() ==> affected(v, operation_id, #[trigger] pairs[k]),
        judged(v, operation_id, pairs) == Ok::<Seq<UnrepresentableView>, BindingFault>(list),
        0 <= d < v.dependencies.len(),
        left_hanging(v, operation_id, v.dependencies[d]),
        pairs.contains((v.dependencies[d].blocked_id, v.dependencies[d].blocking_id)),
    ensures
        is_complained_of(list, v, v.dependencies[d]),
{
    let q = (v.dependencies[d].blocked_id, v.dependencies[d].blocking_id);
    let j = choose|j: int| 0 <= j < pairs.len() && pairs[j] == q;
    lemma_lines(v, operation_id, pairs);
    lemma_tellable(v, operation_id, pairs, j);
    let at = lemma_verdict(v, operation_id, pairs[j]);
    lemma_same_complaint(list[0], v, operation_id, v.dependencies[at], v.dependencies[d]);
    let line = line_for(v, operation_id, pairs[j])->0;
    assert(line_for(v, operation_id, pairs[j]) is Some);
    assert(list.contains(line));
    let n = choose|n: int| 0 <= n < list.len() && list[n] == line;
    lemma_same_complaint(line, v, operation_id, v.dependencies[at], v.dependencies[d]);
    assert(complains_of(list[n], v, v.dependencies[d]));
}

/// Where all is judged, the Backend of every end is known.
proof fn lemma_tellable(
    v: StoreView,
    operation_id: Seq<char>,
    pairs: Seq<(Seq<char>, Seq<char>)>,
    j: int,
)
    requires
        judged(v, operation_id, pairs) is Ok,
        0 <= j < pairs.len(),
    ensures
        !cannot_tell(v, operation_id, pairs[j]),
    decreases pairs.len(),
{
    if j < pairs.len() - 1 {
        lemma_tellable(v, operation_id, pairs.drop_last(), j);
    }
}

/// Whether a Dependency of an Item that loses its Promotion has an end of which
/// the Backend is not known.
pub open spec fn unclear_end(v: StoreView, operation_id: Seq<char>, d: DependencyView) -> bool {
    &&& loses_its_promotion(v, operation_id, d.blocked_id) || loses_its_promotion(
        v,
        operation_id,
        d.blocking_id,
    )
    &&& promoted_nowhere(v, d.blocked_id) || promoted_nowhere(v, d.blocking_id)
}

/// A withdrawal whose operation is known is refused where nothing of the
/// operation is unsettled, where it would leave an Item that stays bound
/// waiting for one that loses its Promotion, and where a Mutation that waits
/// does not say which Item it speaks of; and else only where the Backend of a
/// Dependency's end cannot be told.
pub proof fn law_when_a_withdrawal_is_refused(v: StoreView, id: Seq<char>)
    requires
        v.wf(),
        cancellable_operation(v, id) is Ok,
    ensures
        ({
            let operation_id = cancellable_operation(v, id)->Ok_0;
            match cancel_refusal(v, id) {
                None => {
                    &&& forall|d: int|
                        0 <= d < v.dependencies.len() ==> !left_hanging(
                            v,
                            operation_id,
                            #[trigger] v.dependencies[d],
                        )
                    &&& forall|i: int|
                        0 <= i < v.mutations.len() ==> !speaks_unclearly(#[trigger] v.mutations[i])
                },
                Some(CancelFault::NothingToWithdraw(named)) => {
                    &&& named == operation_id
                    &&& forall|i: int|
                        0 <= i < v.mutations.len() && promotes_for(
                            #[trigger] v.mutations[i],
                            operation_id,
                        ) ==> !unsettled(v.mutations[i].state)
                },
                Some(CancelFault::UnrepresentableDependencies(list)) => {
                    &&& list.len() > 0
                    &&& forall|k: int|
                        0 <= k < list.len() ==> is_due(#[trigger] list[k], v, operation_id)
                    &&& forall|d: int|
                        0 <= d < v.dependencies.len() && left_hanging(
                            v,
                            operation_id,
                            #[trigger] v.dependencies[d],
                        ) ==> is_complained_of(list, v, v.dependencies[d])
                },
                Some(CancelFault::MalformedPayload(sequence)) => exists|i: int|
                    0 <= i < v.mutations.len() && speaks_unclearly(#[trigger] v.mutations[i])
                        && v.mutations[i].sequence == sequence && forall|j: int|
                        0 <= j < i ==> !speaks_unclearly(#[trigger] v.mutations[j]),
                Some(CancelFault::BackendBinding(fault)) => fault == BindingFault::Payload
                    && exists|d: int|
                    0 <= d < v.dependencies.len() && unclear_end(
                        v,
                        operation_id,
                        #[trigger] v.dependencies[d],
                    ),
                _ => false,
            }
        }),
{
    let operation_id = cancellable_operation(v, id)->Ok_0;
    let pairs = affected_pairs(v, operation_id);
    lemma_affected(v, operation_id);
    assert forall|k: int| 0 <= k < pairs.len() implies affected(
        v,
        operation_id,
        #[trigger] pairs[k],
    ) by {
        assert(pairs.contains(pairs[k]));
    }
    lemma_judged(v, operation_id, pairs);
    assert forall|d: int|
        0 <= d < v.dependencies.len() && left_hanging(
            v,
            operation_id,
            #[trigger] v.dependencies[d],
        ) implies pairs.contains((v.dependencies[d].blocked_id, v.dependencies[d].blocking_id)) by {
        let q = (v.dependencies[d].blocked_id, v.dependencies[d].blocking_id);
        assert(waits(v.dependencies)[d] == q);
        lemma_withdrawn(v, operation_id, q.1);
        assert(affected(v, operation_id, q));
    }
    lemma_none_selected(v.mutations, untried_in_operation(operation_id));
    lemma_none_selected(v.mutations, unobserved_in_operation(operation_id));
    lemma_none_selected(v.mutations, undecodable());
    assert forall|m: MutationView| (undecodable())(m) == #[trigger] speaks_unclearly(m) by {
        match counterpart_in(m.mutation_type, m.payload_json) {
            Some(Some(other)) => {
                assert(speaks_of(m, other));
            },
            Some(None) => {},
            None => {
                assert(forall|other: Seq<char>| !#[trigger] speaks_of(m, other));
            },
        }
    }
    if v.mutations.filter(undecodable()).len() > 0 {
        let i = lemma_first_selected(v.mutations, undecodable());
        assert(speaks_unclearly(v.mutations[i]));
        assert forall|j: int| 0 <= j < i implies !speaks_unclearly(#[trigger] v.mutations[j]) by {
            assert(!(undecodable())(v.mutations[j]));
        }
    }
    match cancel_refusal(v, id) {
        Some(CancelFault::NothingToWithdraw(_)) => {
            assert forall|i: int|
                0 <= i < v.mutations.len() && promotes_for(
                    #[trigger] v.mutations[i],
                    operation_id,
                ) implies !unsettled(v.mutations[i].state) by {
                assert(!(untried_in_operation(operation_id))(v.mutations[i]));
                assert(!(unobserved_in_operation(operation_id))(v.mutations[i]));
            }
        },
        _ => {},
    }
}

} // verus!
