//! Selecting the next ready Ticket.

use vstd::prelude::*;

use crate::domain::{ItemClass, Lifecycle, Priority, SelectionState};
use crate::graph::within;
use crate::laws::facts::{held_up, lemma_first_selected, lemma_row, lemma_row_has, startable};
use crate::laws::reads::{law_what_blocks_an_item, law_what_each_view_shows, waits_for};
use crate::repository::list::{matches_view, ListView};
use crate::repository::next::{
    effective, feels, goes_first, inherits_urgency, is_candidate, is_effective, is_selected, lends,
    passes_urgency, selection_shown, urgency_edges, urges, NextScope, NextTicket,
};
use crate::rows::ItemView;
use crate::select::lemma_filter_contains;
use crate::tables::StoreView;

verus! {

/// How urgent a Priority is: the smaller, the more urgent.
pub open spec fn urgency(priority: Priority) -> int {
    match priority {
        Priority::P0 => 0,
        Priority::P1 => 1,
        Priority::P2 => 2,
        Priority::P3 => 3,
        Priority::P4 => 4,
    }
}

/// Whether a Ticket is among those that may be selected within the scope.
pub open spec fn on_offer(v: StoreView, scope: NextScope<'_>, item: ItemView) -> bool {
    match scope {
        NextScope::All => true,
        NextScope::Epic(epic) => item.container_id == Some(epic@),
        NextScope::Plan(None) => v.plan.contains(item.id),
        NextScope::Plan(Some(epic)) => v.plan.contains(item.id) && item.container_id == Some(epic@),
    }
}

/// Whether an Item's urgency counts within the scope: in an Epic, that of the
/// Epic and what is in it; in the Plan, that of its Tickets and of any Epic.
pub open spec fn counts_within(v: StoreView, scope: NextScope<'_>, item: ItemView) -> bool {
    match scope {
        NextScope::All => true,
        NextScope::Epic(epic) => item.id == epic@ || item.container_id == Some(epic@),
        NextScope::Plan(None) => item.item_class == ItemClass::Epic || v.plan.contains(item.id),
        NextScope::Plan(Some(epic)) => (item.item_class == ItemClass::Epic || v.plan.contains(
            item.id,
        )) && (item.id == epic@ || item.container_id == Some(epic@)),
    }
}

/// Whether the second Item is one step nearer to where urgency comes from: it
/// waits on the first, or it is a Ticket of the first; it is not done, and counts
/// within the scope.
pub open spec fn one_step(v: StoreView, scope: NextScope<'_>, a: Seq<char>, b: Seq<char>) -> bool {
    exists|i: int|
        0 <= i < v.items.len() && (#[trigger] v.items[i]).id == b && v.items[i].lifecycle
            == Lifecycle::Open && counts_within(v, scope, v.items[i]) && (waits_for(v, b, a) || (
        v.items[i].item_class == ItemClass::Ticket && v.items[i].container_id == Some(a)))
}

/// Whether so many steps, or fewer, lead from one Item to another.
pub open spec fn some_steps(
    v: StoreView,
    scope: NextScope<'_>,
    steps: nat,
    a: Seq<char>,
    b: Seq<char>,
) -> bool
    decreases steps,
{
    a == b || (steps > 0 && exists|x: Seq<char>| #[trigger]
        one_step(v, scope, x, b) && some_steps(v, scope, (steps - 1) as nat, a, x))
}

/// The steps that urgency is followed over are those.
proof fn lemma_edges(v: StoreView, scope: NextScope<'_>, a: Seq<char>, b: Seq<char>)
    requires
        v.wf(),
    ensures
        urgency_edges(v, scope).contains((a, b)) == one_step(v, scope, a, b),
{
    let edges = urgency_edges(v, scope);
    let dcond = passes_urgency(v, scope);
    let icond = inherits_urgency(v, scope);
    let deps = v.dependencies.filter(dcond);
    let members = v.items.filter(icond);
    lemma_filter_contains(v.dependencies, dcond);
    lemma_filter_contains(v.items, icond);
    if edges.contains((a, b)) {
        let k = choose|k: int| 0 <= k < edges.len() && edges[k] == (a, b);
        if k < deps.len() {
            assert(edges[k] == (deps[k].blocking_id, deps[k].blocked_id));
            assert(dcond(deps[k]) && v.dependencies.contains(deps[k]));
            let d = choose|d: int| 0 <= d < v.dependencies.len() && v.dependencies[d] == deps[k];
            assert(v.dependencies[d].blocked_id == b);
            assert(v.has(b));
            lemma_row(v, b);
            assert(v.items[v.at(b)].id == b);
            assert(waits_for(v, b, a));
        } else {
            let m = members[k - deps.len()];
            assert(edges[k] == (m.container_id->0, m.id));
            assert(icond(m) && v.items.contains(m));
            let i = choose|i: int| 0 <= i < v.items.len() && v.items[i] == m;
            assert(v.items[i].id == b);
        }
    }
    if one_step(v, scope, a, b) {
        let i = choose|i: int|
            0 <= i < v.items.len() && (#[trigger] v.items[i]).id == b && v.items[i].lifecycle
                == Lifecycle::Open && counts_within(v, scope, v.items[i]) && (waits_for(v, b, a)
                || (v.items[i].item_class == ItemClass::Ticket && v.items[i].container_id == Some(
                a,
            )));
        lemma_row_has(v, i);
        if waits_for(v, b, a) {
            let d = choose|d: int|
                0 <= d < v.dependencies.len() && (#[trigger] v.dependencies[d]).blocked_id == b
                    && v.dependencies[d].blocking_id == a;
            assert(dcond(v.dependencies[d]));
            assert(deps.contains(v.dependencies[d]));
            let k = choose|k: int| 0 <= k < deps.len() && deps[k] == v.dependencies[d];
            assert(edges[k] == (a, b));
        } else {
            assert(icond(v.items[i]));
            assert(members.contains(v.items[i]));
            let k = choose|k: int| 0 <= k < members.len() && members[k] == v.items[i];
            assert(edges[deps.len() + k] == (a, b));
        }
    }
}

proof fn lemma_steps(v: StoreView, scope: NextScope<'_>, n: nat, a: Seq<char>, b: Seq<char>)
    requires
        v.wf(),
    ensures
        within(urgency_edges(v, scope), n, a, b) == some_steps(v, scope, n, a, b),
    decreases n,
{
    let edges = urgency_edges(v, scope);
    if a != b && n > 0 {
        if within(edges, n, a, b) {
            let i = choose|i: int|
                0 <= i < edges.len() && (#[trigger] edges[i]).1 == b && within(
                    edges,
                    (n - 1) as nat,
                    a,
                    edges[i].0,
                );
            lemma_edges(v, scope, edges[i].0, b);
            assert(edges.contains((edges[i].0, b)));
            lemma_steps(v, scope, (n - 1) as nat, a, edges[i].0);
        }
        if some_steps(v, scope, n, a, b) {
            let x = choose|x: Seq<char>| #[trigger]
                one_step(v, scope, x, b) && some_steps(v, scope, (n - 1) as nat, a, x);
            lemma_edges(v, scope, x, b);
            lemma_steps(v, scope, (n - 1) as nat, a, x);
            let i = choose|i: int| 0 <= i < edges.len() && edges[i] == (x, b);
            assert(edges[i].1 == b);
        }
    }
}

/// Whether a Ticket lends its Priority to the Item: it has one, is not done, and
/// at most 1024 steps lead to it, each from an Item to one that waits on it or
/// from an Epic to a Ticket in it.
pub open spec fn is_heard(v: StoreView, scope: NextScope<'_>, at: Seq<char>, item: ItemView) -> bool {
    &&& item.item_class == ItemClass::Ticket
    &&& item.lifecycle == Lifecycle::Open
    &&& item.priority is Some
    &&& some_steps(v, scope, 1024, at, item.id)
}

proof fn lemma_heard(v: StoreView, scope: NextScope<'_>, at: Seq<char>, item: ItemView)
    requires
        v.wf(),
    ensures
        (urges(item) && feels(v, scope, at, item.id)) == is_heard(v, scope, at, item),
{
    lemma_steps(v, scope, 1024, at, item.id);
}

/// The Effective Priority of an Item is the most urgent Priority among the Tickets
/// that are heard at it; there is one exactly where a Ticket is.
pub proof fn law_effective_priority_is_the_most_urgent_heard(
    v: StoreView,
    scope: NextScope<'_>,
    id: Seq<char>,
)
    requires
        v.wf(),
    ensures
        effective(v, scope, id) is Some == exists|i: int|
            0 <= i < v.items.len() && is_heard(v, scope, id, #[trigger] v.items[i]),
        effective(v, scope, id) is Some ==> exists|i: int|
            0 <= i < v.items.len() && is_heard(v, scope, id, #[trigger] v.items[i])
                && v.items[i].priority == effective(v, scope, id),
        effective(v, scope, id) is Some ==> forall|i: int|
            0 <= i < v.items.len() && is_heard(v, scope, id, #[trigger] v.items[i]) ==> urgency(
                effective(v, scope, id)->0,
            ) <= urgency(v.items[i].priority->0),
{
    assert forall|i: int| 0 <= i < v.items.len() implies (urges(#[trigger] v.items[i]) && feels(
        v,
        scope,
        id,
        v.items[i].id,
    )) == is_heard(v, scope, id, v.items[i]) by {
        lemma_heard(v, scope, id, v.items[i]);
    }
    if exists|i: int| 0 <= i < v.items.len() && is_heard(v, scope, id, #[trigger] v.items[i]) {
        lemma_most_urgent(v, scope, id, v.items.len() as int);
        let m = v.items.len() as int;
        let p = choose|p: Priority| most_urgent_of(v, scope, id, m, p);
        assert(is_effective(v, scope, id, p));
    }
    if effective(v, scope, id) is Some {
        let p = effective(v, scope, id)->0;
        assert(is_effective(v, scope, id, p));
        let k = choose|k: int|
            0 <= k < v.items.len() && urges(#[trigger] v.items[k]) && v.items[k].priority == Some(p)
                && feels(v, scope, id, v.items[k].id);
        assert(is_heard(v, scope, id, v.items[k]));
    }
}

/// Whether the Priority is the most urgent one among the first Tickets heard.
spec fn most_urgent_of(
    v: StoreView,
    scope: NextScope<'_>,
    id: Seq<char>,
    n: int,
    p: Priority,
) -> bool {
    &&& exists|i: int|
        0 <= i < n && is_heard(v, scope, id, #[trigger] v.items[i]) && v.items[i].priority == Some(p)
    &&& forall|i: int|
        0 <= i < n && is_heard(v, scope, id, #[trigger] v.items[i]) ==> urgency(p) <= urgency(
            v.items[i].priority->0,
        )
}

proof fn lemma_most_urgent(v: StoreView, scope: NextScope<'_>, id: Seq<char>, n: int)
    requires
        0 <= n <= v.items.len(),
        exists|i: int| 0 <= i < n && is_heard(v, scope, id, #[trigger] v.items[i]),
    ensures
        exists|p: Priority| most_urgent_of(v, scope, id, n, p),
    decreases n,
{
    let last = v.items[n - 1];
    if exists|i: int| 0 <= i < n - 1 && is_heard(v, scope, id, #[trigger] v.items[i]) {
        let m = n - 1;
        lemma_most_urgent(v, scope, id, m);
        let p = choose|p: Priority| most_urgent_of(v, scope, id, m, p);
        if is_heard(v, scope, id, last) && urgency(last.priority->0) < urgency(p) {
            assert(most_urgent_of(v, scope, id, n, last.priority->0));
        } else {
            assert(most_urgent_of(v, scope, id, n, p));
        }
    } else {
        assert(most_urgent_of(v, scope, id, n, last.priority->0));
    }
}

/// Whether a Ticket may be selected: nobody works on it, nothing holds it up, it
/// is on offer, and a Priority is heard at it.
pub open spec fn selectable(v: StoreView, scope: NextScope<'_>, item: ItemView) -> bool {
    &&& item.item_class == ItemClass::Ticket
    &&& startable(item)
    &&& !held_up(v, item.id)
    &&& on_offer(v, scope, item)
    &&& effective(v, scope, item.id) is Some
}

/// The Items that a selection may fall on are the Tickets that are open, idle,
/// held up by nothing and on offer, and at which a Priority is heard. A Ticket
/// with a Priority of its own is always one that is heard at itself.
pub proof fn law_which_tickets_may_be_selected(v: StoreView, scope: NextScope<'_>, i: int)
    requires
        v.wf(),
        0 <= i < v.items.len(),
    ensures
        is_candidate(v, scope, v.items[i]) == selectable(v, scope, v.items[i]),
        v.items[i].item_class == ItemClass::Ticket && startable(v.items[i]) && !held_up(
            v,
            v.items[i].id,
        ) && on_offer(v, scope, v.items[i]) && v.items[i].priority is Some ==> is_candidate(
            v,
            scope,
            v.items[i],
        ) && urgency(effective(v, scope, v.items[i].id)->0) <= urgency(v.items[i].priority->0),
{
    law_what_blocks_an_item(v, v.items[i].id);
    law_effective_priority_is_the_most_urgent_heard(v, scope, v.items[i].id);
    if v.items[i].item_class == ItemClass::Ticket && v.items[i].priority is Some
        && v.items[i].lifecycle == Lifecycle::Open {
        assert(is_heard(v, scope, v.items[i].id, v.items[i]));
    }
}

/// The selected Ticket is open and idle, nothing holds it up, and it is on offer;
/// one that is accepted is in the list of what is ready.
pub proof fn law_the_selected_ticket_is_ready(v: StoreView, scope: NextScope<'_>, i: int)
    requires
        v.wf(),
        is_selected(v, scope, i),
    ensures
        v.items[i].item_class == ItemClass::Ticket,
        startable(v.items[i]),
        !held_up(v, v.items[i].id),
        on_offer(v, scope, v.items[i]),
        v.items[i].selection_state == Some(SelectionState::Accepted) ==> matches_view(
            v,
            ListView::Ready,
            v.items[i],
        ),
{
    law_which_tickets_may_be_selected(v, scope, i);
    law_what_each_view_shows(v, v.items[i]);
}

/// How urgent a Ticket's own Priority is: one without comes before all.
pub open spec fn own_urgency(item: ItemView) -> int {
    if item.priority is None {
        -1
    } else {
        urgency(item.priority->0)
    }
}

/// No selectable Ticket has a more urgent Effective Priority than the selected
/// one; of those with the same, none has a more urgent Priority of its own; and
/// of those with both the same, none was created earlier.
pub proof fn law_the_selected_ticket_comes_first(
    v: StoreView,
    scope: NextScope<'_>,
    i: int,
    j: int,
)
    requires
        v.wf(),
        is_selected(v, scope, i),
        0 <= j < v.items.len(),
        selectable(v, scope, v.items[j]),
    ensures
        ({
            let ours = urgency(effective(v, scope, v.items[i].id)->0);
            let theirs = urgency(effective(v, scope, v.items[j].id)->0);
            &&& ours <= theirs
            &&& ours == theirs ==> own_urgency(v.items[i]) <= own_urgency(v.items[j])
            &&& ours == theirs && own_urgency(v.items[i]) == own_urgency(v.items[j])
                ==> v.items[i].created_seq <= v.items[j].created_seq
        }),
{
    law_which_tickets_may_be_selected(v, scope, j);
    assert(!goes_first(v, scope, v.items[j], v.items[i]));
}

/// Where nobody who is not done waits on a Ticket, its Effective Priority is its
/// own, whatever else there is.
pub proof fn law_urgency_is_borrowed_from_what_waits_only(
    v: StoreView,
    scope: NextScope<'_>,
    i: int,
)
    requires
        v.wf(),
        0 <= i < v.items.len(),
        v.items[i].item_class == ItemClass::Ticket,
        v.items[i].lifecycle == Lifecycle::Open,
        forall|k: int|
            0 <= k < v.items.len() && waits_for(v, (#[trigger] v.items[k]).id, v.items[i].id)
                ==> v.items[k].lifecycle == Lifecycle::Done,
    ensures
        effective(v, scope, v.items[i].id) == v.items[i].priority,
{
    let id = v.items[i].id;
    law_effective_priority_is_the_most_urgent_heard(v, scope, id);
    assert forall|b: Seq<char>| !one_step(v, scope, id, b) by {
        if one_step(v, scope, id, b) {
            let k = choose|k: int|
                0 <= k < v.items.len() && (#[trigger] v.items[k]).id == b && v.items[k].lifecycle
                    == Lifecycle::Open && counts_within(v, scope, v.items[k]) && (waits_for(
                    v,
                    b,
                    id,
                ) || (v.items[k].item_class == ItemClass::Ticket && v.items[k].container_id == Some(
                    id,
                )));
            assert(v.items[k].container_id == Some(id));
            let ks = crate::tables::keys(v.items);
            assert(ks.contains((id, ItemClass::Epic)));
            let e = choose|e: int| 0 <= e < ks.len() && ks[e] == (id, ItemClass::Epic);
            lemma_row_has(v, e);
            lemma_row_has(v, i);
        }
    }
    assert forall|k: int| 0 <= k < v.items.len() && is_heard(v, scope, id, #[trigger] v.items[k])
        implies k == i by {
        lemma_no_way_on(v, scope, 1024, id, v.items[k].id);
        lemma_row_has(v, k);
        lemma_row_has(v, i);
    }
    if v.items[i].priority is Some {
        assert(is_heard(v, scope, id, v.items[i]));
    }
}

/// Where no step leads on from an Item, none leads anywhere.
proof fn lemma_no_way_on(
    v: StoreView,
    scope: NextScope<'_>,
    n: nat,
    a: Seq<char>,
    b: Seq<char>,
)
    requires
        forall|x: Seq<char>| !one_step(v, scope, a, x),
        some_steps(v, scope, n, a, b),
    ensures
        a == b,
    decreases n,
{
    if a != b {
        let x = choose|x: Seq<char>| #[trigger]
            one_step(v, scope, x, b) && some_steps(v, scope, (n - 1) as nat, a, x);
        lemma_no_way_on(v, scope, (n - 1) as nat, a, x);
        assert(one_step(v, scope, a, b));
    }
}

/// An Item is never less urgent than a Ticket that is not done and waits on it.
pub proof fn law_what_waits_lends_its_urgency(
    v: StoreView,
    scope: NextScope<'_>,
    id: Seq<char>,
    k: int,
)
    requires
        v.wf(),
        0 <= k < v.items.len(),
        waits_for(v, v.items[k].id, id),
        v.items[k].item_class == ItemClass::Ticket,
        v.items[k].lifecycle == Lifecycle::Open,
        v.items[k].priority is Some,
        counts_within(v, scope, v.items[k]),
    ensures
        effective(v, scope, id) is Some,
        urgency(effective(v, scope, id)->0) <= urgency(v.items[k].priority->0),
{
    law_effective_priority_is_the_most_urgent_heard(v, scope, id);
    assert(one_step(v, scope, id, v.items[k].id));
    assert(some_steps(v, scope, 1023, id, id));
    assert(is_heard(v, scope, id, v.items[k]));
}

/// Whether another Ticket is heard at the Item whose Priority is the Item's
/// Effective Priority.
pub open spec fn lends_its_own(v: StoreView, scope: NextScope<'_>, i: int, k: int) -> bool {
    &&& 0 <= k < v.items.len()
    &&& k != i
    &&& is_heard(v, scope, v.items[i].id, v.items[k])
    &&& v.items[k].priority == effective(v, scope, v.items[i].id)
}

/// What is told of the selected Ticket is its Display ID. A reason is told exactly
/// where its Effective Priority is not its own: that Priority, and the Display ID
/// of another Ticket that has it, is not done and is heard at it, the first of
/// those in creation order.
pub proof fn law_what_a_selection_tells(
    v: StoreView,
    scope: NextScope<'_>,
    i: int,
    ticket: NextTicket,
)
    requires
        v.wf(),
        is_selected(v, scope, i),
        selection_shown(v, scope, v.items[i], ticket),
    ensures
        ticket.display_id@ == v.items[i].display_id,
        ticket.rationale is Some == (v.items[i].priority != effective(v, scope, v.items[i].id)),
        ticket.rationale is Some ==> ticket.rationale->0.effective_priority@ == effective(
            v,
            scope,
            v.items[i].id,
        )->0.name(),
        ticket.rationale is Some ==> exists|k: int| #[trigger]
            lends_its_own(v, scope, i, k) && ticket.rationale->0.blocked_display_id@
                == v.items[k].display_id && forall|j: int|
                0 <= j < k ==> !#[trigger] lends_its_own(v, scope, i, j),
{
    let id = v.items[i].id;
    let p = effective(v, scope, id)->0;
    if ticket.rationale is Some {
        let cond = lends(v, scope, id, p);
        let lenders = v.items.filter(cond);
        lemma_filter_contains(v.items, cond);
        let k = lemma_first_selected(v.items, cond);
        lemma_heard(v, scope, id, v.items[k]);
        assert(lends_its_own(v, scope, i, k));
        assert forall|j: int| 0 <= j < k implies !#[trigger] lends_its_own(v, scope, i, j) by {
            assert(!cond(v.items[j]));
            lemma_heard(v, scope, id, v.items[j]);
            lemma_row_has(v, j);
            lemma_row_has(v, i);
        }
    }
}

} // verus!
