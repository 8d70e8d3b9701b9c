//! The Plan: who is in it and how its members stand.

use vstd::prelude::*;

use crate::domain::{ItemClass, ItemStatus, Lifecycle, SelectionState, WorkState};
use crate::laws::facts::{held_up, lemma_none_selected, lemma_row, lemma_row_has};
use crate::repository::plan::{
    batch, law_membership_follows_the_batch, members_edited, planned, reports, section_of,
    MembershipEdit, MembershipResult, PlanBlocker, PlanFault, PlanSection, PlanTicket,
};
use crate::repository::pick::blocks_from_outside;
use crate::repository::show::awaited_by;
use crate::rows::{ExternalBlockerView, ItemView};
use crate::select::lemma_filter_contains;
use crate::tables::{waits, StoreView};

verus! {

/// Whether a text of the batch names the Item.
pub open spec fn is_asked_for(v: StoreView, args: Seq<String>, id: Seq<char>) -> bool {
    exists|j: int| 0 <= j < args.len() && v.names((#[trigger] args[j])@, id)
}

/// Whether the text names one of the Tickets.
pub open spec fn is_covered(v: StoreView, arg: Seq<char>, targets: Seq<Seq<char>>) -> bool {
    exists|k: int| 0 <= k < targets.len() && v.names(arg, #[trigger] targets[k])
}

/// Whether the ID is a Ticket's.
pub open spec fn is_ticket(v: StoreView, id: Seq<char>) -> bool {
    exists|i: int|
        0 <= i < v.items.len() && (#[trigger] v.items[i]).id == id && v.items[i].item_class
            == ItemClass::Ticket
}

proof fn lemma_named(v: StoreView, arg: Seq<char>, id: Seq<char>)
    requires
        v.wf(),
        v.names(arg, id),
    ensures
        v.has(id),
        is_ticket(v, id) == (v.item(id).item_class == ItemClass::Ticket),
{
    if exists|i: int|
        0 <= i < v.items.len() && (#[trigger] v.items[i]).id == id && crate::text::folded(
            v.items[i].display_id,
        ) == crate::text::folded(arg) {
        let i = choose|i: int|
            0 <= i < v.items.len() && (#[trigger] v.items[i]).id == id && crate::text::folded(
                v.items[i].display_id,
            ) == crate::text::folded(arg);
        lemma_row_has(v, i);
    } else {
        let i = choose|i: int|
            0 <= i < v.aliases.len() && (#[trigger] v.aliases[i]).item_id == id
                && crate::text::folded(v.aliases[i].value) == crate::text::folded(arg);
        assert(v.has(id));
    }
    lemma_row(v, id);
    assert(v.items[v.at(id)].id == id);
}

/// A batch is the Tickets that its texts name, each once. It is refused for a
/// text that names nothing, and for one that names an Epic, and for no other
/// reason.
pub proof fn law_what_a_batch_names(v: StoreView, args: Seq<String>)
    requires
        v.wf(),
    ensures
        match batch(v, args) {
            Ok(targets) => {
                &&& targets.no_duplicates()
                &&& forall|k: int|
                    0 <= k < targets.len() ==> is_asked_for(v, args, #[trigger] targets[k])
                        && is_ticket(v, targets[k])
                &&& forall|j: int|
                    0 <= j < args.len() ==> is_covered(v, (#[trigger] args[j])@, targets)
            },
            Err(PlanFault::NotFound(text)) => exists|j: int|
                0 <= j < args.len() && (#[trigger] args[j])@ == text && forall|id: Seq<char>|
                    !#[trigger] v.names(text, id),
            Err(PlanFault::NotATicket(display_id)) => exists|j: int, i: int|
                #![trigger args[j], v.items[i]]
                0 <= j < args.len() && 0 <= i < v.items.len() && v.names(args[j]@, v.items[i].id)
                    && v.items[i].item_class == ItemClass::Epic && v.items[i].display_id
                    == display_id,
        },
    decreases args.len(),
{
    if args.len() > 0 {
        let rest = args.drop_last();
        let last = args.last();
        assert(args[args.len() - 1] == last);
        law_what_a_batch_names(v, rest);
        match batch(v, rest) {
            Err(PlanFault::NotFound(text)) => {
                let j = choose|j: int|
                    0 <= j < rest.len() && (#[trigger] rest[j])@ == text && forall|id: Seq<char>|
                        !#[trigger] v.names(text, id);
                assert(args[j] == rest[j]);
            },
            Err(PlanFault::NotATicket(display_id)) => {
                let (j, i) = choose|j: int, i: int|
                    #![trigger rest[j], v.items[i]]
                    0 <= j < rest.len() && 0 <= i < v.items.len() && v.names(
                        rest[j]@,
                        v.items[i].id,
                    ) && v.items[i].item_class == ItemClass::Epic && v.items[i].display_id
                        == display_id;
                assert(args[j] == rest[j]);
            },
            Ok(before) => {
                if v.resolved(last@) is Some {
                    let id = v.resolved(last@)->0;
                    assert(v.names(last@, id));
                    lemma_named(v, last@, id);
                    lemma_row(v, id);
                    assert(v.items[v.at(id)] == v.item(id));
                    if v.item(id).item_class == ItemClass::Ticket {
                        lemma_batch_step(v, args, before, id);
                    } else {
                        assert(v.names(args[args.len() - 1]@, v.items[v.at(id)].id));
                    }
                } else {
                    assert(forall|id: Seq<char>| !#[trigger] v.names(last@, id));
                }
            },
        }
    }
}

proof fn lemma_batch_step(v: StoreView, args: Seq<String>, before: Seq<Seq<char>>, id: Seq<char>)
    requires
        args.len() > 0,
        before.no_duplicates(),
        v.names(args.last()@, id),
        is_ticket(v, id),
        forall|k: int|
            0 <= k < before.len() ==> is_asked_for(v, args.drop_last(), #[trigger] before[k])
                && is_ticket(v, before[k]),
        forall|j: int|
            0 <= j < args.drop_last().len() ==> is_covered(
                v,
                (#[trigger] args.drop_last()[j])@,
                before,
            ),
    ensures
        ({
            let targets = if before.contains(id) {
                before
            } else {
                before.push(id)
            };
            &&& targets.no_duplicates()
            &&& forall|k: int|
                0 <= k < targets.len() ==> is_asked_for(v, args, #[trigger] targets[k]) && is_ticket(
                    v,
                    targets[k],
                )
            &&& forall|j: int|
                0 <= j < args.len() ==> is_covered(v, (#[trigger] args[j])@, targets)
        }),
{
    let rest = args.drop_last();
    let targets = if before.contains(id) {
        before
    } else {
        before.push(id)
    };
    assert(targets.contains(id)) by {
        if !before.contains(id) {
            assert(targets[before.len() as int] == id);
        }
    }
    assert forall|a: int, b: int| 0 <= a < b < targets.len() implies targets[a] != targets[b] by {
        if b == before.len() {
            assert(before.contains(before[a]));
        }
    }
    assert forall|k: int| 0 <= k < targets.len() implies is_asked_for(
        v,
        args,
        #[trigger] targets[k],
    ) && is_ticket(v, targets[k]) by {
        if k < before.len() {
            assert(is_asked_for(v, rest, before[k]));
            let j = choose|j: int| 0 <= j < rest.len() && v.names((#[trigger] rest[j])@, before[k]);
            assert(args[j] == rest[j]);
        } else {
            assert(v.names(args[args.len() - 1]@, id));
        }
    }
    assert forall|j: int| 0 <= j < args.len() implies is_covered(
        v,
        (#[trigger] args[j])@,
        targets,
    ) by {
        if j < rest.len() {
            assert(rest[j] == args[j]);
            assert(is_covered(v, rest[j]@, before));
            let k = choose|k: int| 0 <= k < before.len() && v.names(rest[j]@, #[trigger] before[k]);
            assert(targets[k] == before[k]);
        } else {
            let k = choose|k: int| 0 <= k < targets.len() && targets[k] == id;
            assert(v.names(args[j]@, targets[k]));
        }
    }
}

/// An edit tells of each Ticket of the batch, by its Display ID, whether it
/// joined or left: exactly whether it is a member after and was not before, or
/// the other way round.
pub proof fn law_what_an_edit_of_the_plan_reports(
    v: StoreView,
    targets: Seq<Seq<char>>,
    edit: MembershipEdit,
    results: Seq<MembershipResult>,
    k: int,
)
    requires
        v.wf(),
        reports(v, targets, edit, results),
        0 <= k < targets.len(),
        v.has(targets[k]),
    ensures
        results.len() == targets.len(),
        results[k].changed == (members_edited(v.plan, targets, edit).contains(targets[k])
            != v.plan.contains(targets[k])),
        exists|i: int|
            0 <= i < v.items.len() && (#[trigger] v.items[i]).id == targets[k]
                && v.items[i].display_id == results[k].display_id@,
{
    law_membership_follows_the_batch(v.plan, targets, edit, targets[k]);
    assert(targets.contains(targets[k]));
    lemma_row(v, targets[k]);
    assert(v.items[v.at(targets[k])].id == targets[k]);
}

pub proof fn lemma_blocked(v: StoreView, id: Seq<char>)
    requires
        v.wf(),
    ensures
        held_up(v, id) == (v.items.filter(awaited_by(v, id)).len()
            + v.external_blockers.filter(blocks_from_outside(id)).len() > 0),
{
    let inside = awaited_by(v, id);
    let outside = blocks_from_outside(id);
    lemma_none_selected(v.items, inside);
    lemma_none_selected(v.external_blockers, outside);
    assert forall|i: int| 0 <= i < v.items.len() implies inside(#[trigger] v.items[i]) == waits_open(
        v,
        id,
        i,
    ) by {
        lemma_waits_open(v, id, i);
    }
    if held_up(v, id) {
        if exists|d: int, i: int|
            #![trigger v.dependencies[d], v.items[i]]
            0 <= d < v.dependencies.len() && 0 <= i < v.items.len() && v.dependencies[d].blocked_id
                == id && v.dependencies[d].blocking_id == v.items[i].id && v.items[i].lifecycle
                == Lifecycle::Open {
            let (d, i) = choose|d: int, i: int|
                #![trigger v.dependencies[d], v.items[i]]
                0 <= d < v.dependencies.len() && 0 <= i < v.items.len()
                    && v.dependencies[d].blocked_id == id && v.dependencies[d].blocking_id
                    == v.items[i].id && v.items[i].lifecycle == Lifecycle::Open;
            assert(waits_open(v, id, i));
            assert(inside(v.items[i]));
        } else {
            let b = choose|b: int|
                0 <= b < v.external_blockers.len() && (#[trigger] v.external_blockers[b]).item_id
                    == id && v.external_blockers[b].resolved_at is None;
            assert(outside(v.external_blockers[b]));
        }
    } else {
        assert forall|i: int| 0 <= i < v.items.len() implies !inside(#[trigger] v.items[i]) by {
            assert(!waits_open(v, id, i));
        }
        assert forall|b: int| 0 <= b < v.external_blockers.len() implies !outside(
            #[trigger] v.external_blockers[b],
        ) by {}
    }
}

/// Whether the Item waits for the one of the row, which is not done.
pub open spec fn waits_open(v: StoreView, id: Seq<char>, i: int) -> bool {
    &&& v.items[i].lifecycle == Lifecycle::Open
    &&& exists|d: int|
        0 <= d < v.dependencies.len() && (#[trigger] v.dependencies[d]).blocked_id == id
            && v.dependencies[d].blocking_id == v.items[i].id
}

proof fn lemma_waits_open(v: StoreView, id: Seq<char>, i: int)
    requires
        0 <= i < v.items.len(),
    ensures
        (awaited_by(v, id))(v.items[i]) == waits_open(v, id, i),
{
    let p = (id, v.items[i].id);
    if waits(v.dependencies).contains(p) {
        let d = choose|d: int| 0 <= d < waits(v.dependencies).len() && waits(v.dependencies)[d] == p;
        assert(v.dependencies[d].blocked_id == id);
    }
    if waits_open(v, id, i) {
        let d = choose|d: int|
            0 <= d < v.dependencies.len() && (#[trigger] v.dependencies[d]).blocked_id == id
                && v.dependencies[d].blocking_id == v.items[i].id;
        assert(waits(v.dependencies)[d] == p);
    }
}

/// A member of the Plan is done, in progress, ready or waiting: ready where it
/// is accepted, nobody works on it and nothing holds it up; and what is done or
/// in progress stays that, whatever holds it up.
pub proof fn law_where_a_member_stands(v: StoreView, i: int, member: PlanTicket)
    requires
        v.wf(),
        0 <= i < v.items.len(),
        member.shows(v, v.items[i]),
    ensures
        ({
            let item = v.items[i];
            let section = section_of(
                member.status,
                member.selection,
                member.blockers@.len() > 0,
            );
            &&& (section == PlanSection::Done) == (item.lifecycle == Lifecycle::Done)
            &&& (section == PlanSection::InProgress) == (item.lifecycle == Lifecycle::Open
                && item.work_state == WorkState::Active)
            &&& (section == PlanSection::Ready) == (item.lifecycle == Lifecycle::Open
                && item.work_state == WorkState::Idle && item.selection_state == Some(
                SelectionState::Accepted,
            ) && !held_up(v, item.id))
        }),
{
    lemma_blocked(v, v.items[i].id);
}

/// Whether a line tells of a blocking Item, and rightly whether it is outside
/// the Plan.
pub open spec fn tells_blocker(line: PlanBlocker, v: StoreView, item: ItemView) -> bool {
    match line {
        PlanBlocker::Dependency { display_id, outside_plan } => display_id@ == item.display_id
            && outside_plan == !(exists|p: int|
            0 <= p < v.plan.len() && #[trigger] v.plan[p] == item.id),
        PlanBlocker::External { .. } => false,
    }
}

/// Whether a line gives the reason that an External Blocker gives.
pub open spec fn tells_reason(line: PlanBlocker, b: ExternalBlockerView) -> bool {
    match line {
        PlanBlocker::Dependency { .. } => false,
        PlanBlocker::External { reason } => reason@ == b.reason,
    }
}

/// Whether one of the lines tells of the blocking Item.
pub open spec fn has_blocker(lines: Seq<PlanBlocker>, v: StoreView, item: ItemView) -> bool {
    exists|k: int| 0 <= k < lines.len() && tells_blocker(#[trigger] lines[k], v, item)
}

/// Whether one of the lines gives the reason.
pub open spec fn has_reason(lines: Seq<PlanBlocker>, b: ExternalBlockerView) -> bool {
    exists|k: int| 0 <= k < lines.len() && tells_reason(#[trigger] lines[k], b)
}

/// Whether the line is due to what holds the Item up.
pub open spec fn is_due(line: PlanBlocker, v: StoreView, id: Seq<char>) -> bool {
    ||| exists|i: int|
        0 <= i < v.items.len() && waits_open(v, id, i) && tells_blocker(
            line,
            v,
            #[trigger] v.items[i],
        )
    ||| exists|b: int|
        0 <= b < v.external_blockers.len() && (#[trigger] v.external_blockers[b]).item_id == id
            && v.external_blockers[b].resolved_at is None && tells_reason(
            line,
            v.external_blockers[b],
        )
}

/// A member is told as its row has it, with all that holds it up and nothing
/// besides.
pub proof fn law_what_a_member_tells(v: StoreView, i: int, member: PlanTicket)
    requires
        v.wf(),
        0 <= i < v.items.len(),
        member.shows(v, v.items[i]),
    ensures
        ({
            let item = v.items[i];
            &&& member.display_id@ == item.display_id
            &&& member.title@ == item.title
            &&& member.priority == item.priority
            &&& item.selection_state == Some(member.selection)
            &&& (member.status == ItemStatus::Done) == (item.lifecycle == Lifecycle::Done)
            &&& (member.status == ItemStatus::Active) == (item.lifecycle == Lifecycle::Open
                && item.work_state == WorkState::Active)
            &&& forall|j: int|
                0 <= j < v.items.len() && waits_open(v, item.id, j) ==> has_blocker(
                    member.blockers@,
                    v,
                    #[trigger] v.items[j],
                )
            &&& forall|b: int|
                0 <= b < v.external_blockers.len() && (
                #[trigger] v.external_blockers[b]).item_id == item.id
                    && v.external_blockers[b].resolved_at is None ==> has_reason(
                    member.blockers@,
                    v.external_blockers[b],
                )
            &&& forall|k: int|
                0 <= k < member.blockers@.len() ==> is_due(
                    #[trigger] member.blockers@[k],
                    v,
                    item.id,
                )
        }),
{
    let item = v.items[i];
    let lines = member.blockers@;
    let inside = v.items.filter(awaited_by(v, item.id));
    let outside = v.external_blockers.filter(blocks_from_outside(item.id));
    lemma_filter_contains(v.items, awaited_by(v, item.id));
    lemma_filter_contains(v.external_blockers, blocks_from_outside(item.id));
    assert forall|k: int| 0 <= k < inside.len() implies tells_blocker(
        lines[k],
        v,
        #[trigger] inside[k],
    ) by {
        let line = lines[k];
        assert(v.plan.contains(inside[k].id) == (exists|p: int|
            0 <= p < v.plan.len() && #[trigger] v.plan[p] == inside[k].id));
    }
    assert forall|k: int| 0 <= k < outside.len() implies tells_reason(
        lines[inside.len() + k],
        #[trigger] outside[k],
    ) by {
        let line = lines[inside.len() + k];
    }
    assert forall|j: int|
        0 <= j < v.items.len() && waits_open(v, item.id, j) implies has_blocker(
        lines,
        v,
        #[trigger] v.items[j],
    ) by {
        lemma_waits_open(v, item.id, j);
        let k = choose|k: int| 0 <= k < inside.len() && inside[k] == v.items[j];
        assert(tells_blocker(lines[k], v, inside[k]));
    }
    assert forall|b: int|
        0 <= b < v.external_blockers.len() && (#[trigger] v.external_blockers[b]).item_id == item.id
            && v.external_blockers[b].resolved_at is None implies has_reason(
        lines,
        v.external_blockers[b],
    ) by {
        assert((blocks_from_outside(item.id))(v.external_blockers[b]));
        let k = choose|k: int| 0 <= k < outside.len() && outside[k] == v.external_blockers[b];
        assert(tells_reason(lines[inside.len() + k], outside[k]));
    }
    assert forall|k: int| 0 <= k < lines.len() implies is_due(#[trigger] lines[k], v, item.id) by {
        if k < inside.len() {
            assert(tells_blocker(lines[k], v, inside[k]));
            let j = choose|j: int| 0 <= j < v.items.len() && v.items[j] == inside[k];
            lemma_waits_open(v, item.id, j);
        } else {
            let n = k - inside.len();
            assert(tells_reason(lines[inside.len() + n], outside[n]));
            let b = choose|b: int|
                0 <= b < v.external_blockers.len() && v.external_blockers[b] == outside[n];
            assert((blocks_from_outside(item.id))(v.external_blockers[b]));
        }
    }
}

/// What is read is every Ticket in the Plan, whatever its state, and nothing
/// that is not in it.
pub proof fn law_who_is_read(v: StoreView, item: ItemView)
    ensures
        (planned(v))(item) == (exists|p: int| 0 <= p < v.plan.len() && #[trigger] v.plan[p] == item.id),
{
}

} // verus!
