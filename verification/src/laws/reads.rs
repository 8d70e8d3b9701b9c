//! Listing, searching, showing and naming Items.

use vstd::prelude::*;

use crate::domain::{
    ItemClass, ItemStatus, Lifecycle, MutationState, Origin, SelectionState, WorkState,
};
use crate::laws::edits::law_work_state_is_all_that_is_written;
use crate::laws::facts::{held_up, lemma_row, lemma_row_has, makes_object, startable};
use crate::repository::grep::GrepItem;
use crate::repository::list::{
    listed, matches_view, ListClassFilter, ListOptions, ListOriginFilter, ListRow, ListView,
};
use crate::repository::pick::{blocks_from_outside, is_blocked};
use crate::repository::resolve::lemma_resolved;
use crate::repository::search::titled;
use crate::repository::show::{
    awaited_by, awaiting, child_of, summarised, ExternalBlockerSummary, ItemDetail, ItemSummary,
};
use crate::repository::work_state::worked;
use crate::rows::ItemView;
use crate::select::lemma_filter_contains;
use crate::tables::{waits, StoreView};
use crate::text::{folded, lower};

verus! {

// ---- What holds an Item up ----------------------------------------------

/// An Item is blocked exactly where it waits on an Item that is not done,
/// whatever that one's Work State, or on something outside that is not resolved.
pub proof fn law_what_blocks_an_item(v: StoreView, id: Seq<char>)
    requires
        v.wf(),
    ensures
        is_blocked(v, id) == held_up(v, id),
{
    if is_blocked(v, id) && exists|d: int|
        0 <= d < v.dependencies.len() && (#[trigger] v.dependencies[d]).blocked_id == id && v.item(
            v.dependencies[d].blocking_id,
        ).lifecycle != Lifecycle::Done {
        let d = choose|d: int|
            0 <= d < v.dependencies.len() && (#[trigger] v.dependencies[d]).blocked_id == id
                && v.item(v.dependencies[d].blocking_id).lifecycle != Lifecycle::Done;
        assert(v.has(v.dependencies[d].blocking_id));
        lemma_row(v, v.dependencies[d].blocking_id);
        assert(v.items[v.at(v.dependencies[d].blocking_id)].lifecycle == Lifecycle::Open);
    }
    if exists|d: int, i: int|
        #![trigger v.dependencies[d], v.items[i]]
        0 <= d < v.dependencies.len() && 0 <= i < v.items.len() && v.dependencies[d].blocked_id
            == id && v.dependencies[d].blocking_id == v.items[i].id && v.items[i].lifecycle
            == Lifecycle::Open {
        let (d, i) = choose|d: int, i: int|
            #![trigger v.dependencies[d], v.items[i]]
            0 <= d < v.dependencies.len() && 0 <= i < v.items.len() && v.dependencies[d].blocked_id
                == id && v.dependencies[d].blocking_id == v.items[i].id && v.items[i].lifecycle
                == Lifecycle::Open;
        lemma_row_has(v, i);
    }
}

/// Starting or stopping work on an Item blocks and unblocks nobody, and no view
/// shows another Item more or less on that account.
pub proof fn law_starting_work_unblocks_nobody(
    v: StoreView,
    id: Seq<char>,
    target: WorkState,
    now: Seq<char>,
    other: Seq<char>,
    view: ListView,
)
    requires
        v.wf(),
        v.has(id),
    ensures
        is_blocked(worked(v, id, target, now), other) == is_blocked(v, other),
        v.has(other) && other != id ==> matches_view(
            worked(v, id, target, now),
            view,
            worked(v, id, target, now).item(other),
        ) == matches_view(v, view, v.item(other)),
{
    let after = worked(v, id, target, now);
    law_work_state_is_all_that_is_written(v, id, target, now);
    lemma_row(v, id);
    assert(crate::tables::ids(after.items) =~= crate::tables::ids(v.items));
    assert forall|x: Seq<char>| v.has(x) implies #[trigger] after.item(x).lifecycle == v.item(
        x,
    ).lifecycle by {
        lemma_row(v, x);
        assert(after.items[v.at(x)].id == x);
        assert(after.at(x) == v.at(x));
    }
    assert forall|d: int| 0 <= d < v.dependencies.len() implies after.item(
        (#[trigger] v.dependencies[d]).blocking_id,
    ).lifecycle == v.item(v.dependencies[d].blocking_id).lifecycle by {
        assert(v.has(v.dependencies[d].blocking_id));
    }
    assert(after.dependencies == v.dependencies);
    assert(after.external_blockers == v.external_blockers);
    if v.has(other) && other != id {
        lemma_row(v, other);
        assert(after.items[v.at(other)] == v.items[v.at(other)]);
        assert(after.at(other) == v.at(other));
    }
}

// ---- Lists --------------------------------------------------------------

/// What each view shows for its own sake: what is not done; accepted Tickets
/// that nobody works on and nothing holds up; Tickets, accepted or parked, that
/// something holds up; what is being worked on; and idle Tickets in triage, and
/// parked ones.
pub proof fn law_what_each_view_shows(v: StoreView, item: ItemView)
    requires
        v.wf(),
    ensures
        matches_view(v, ListView::Default, item) == (item.lifecycle == Lifecycle::Open),
        matches_view(v, ListView::Ready, item) == (item.item_class == ItemClass::Ticket && startable(
            item,
        ) && item.selection_state == Some(SelectionState::Accepted) && !held_up(v, item.id)),
        matches_view(v, ListView::Blocked, item) == (item.item_class == ItemClass::Ticket
            && item.lifecycle == Lifecycle::Open && (item.selection_state == Some(
            SelectionState::Accepted,
        ) || item.selection_state == Some(SelectionState::Parked)) && held_up(v, item.id)),
        matches_view(v, ListView::Active, item) == (item.lifecycle == Lifecycle::Open
            && item.work_state == WorkState::Active),
        matches_view(v, ListView::Triage, item) == (item.item_class == ItemClass::Ticket
            && startable(item) && item.selection_state == Some(SelectionState::Triage)),
        matches_view(v, ListView::Parked, item) == (item.item_class == ItemClass::Ticket
            && startable(item) && item.selection_state == Some(SelectionState::Parked)),
{
    law_what_blocks_an_item(v, item.id);
    match item.selection_state {
        Some(SelectionState::Triage) => {},
        Some(SelectionState::Accepted) => {},
        Some(SelectionState::Parked) => {},
        None => {},
    }
}

/// Whether the Item's Origin is one that is asked for.
pub open spec fn right_origin(filter: ListOriginFilter, item: ItemView) -> bool {
    &&& filter == ListOriginFilter::Local ==> item.origin == Origin::Local
    &&& filter == ListOriginFilter::Remote ==> item.origin == Origin::Backend
}

/// Whether the Item is the Epic that is asked for or stands directly in it.
pub open spec fn right_place(scope: Option<&str>, item: ItemView) -> bool {
    scope is Some && scope->0@.len() > 0 ==> item.id == scope->0@ || item.container_id == Some(
        scope->0@,
    )
}

/// A list shows nothing of another Origin, class or Epic than it asks for. An
/// Item that the view shows for its own sake is listed wherever these fit; and,
/// in every view but the default one, so is an Epic around an Item of the right
/// Origin that the view shows. Nothing else is listed.
pub proof fn law_what_a_list_holds(v: StoreView, options: ListOptions<'_>, item: ItemView)
    requires
        v.wf(),
    ensures
        (listed(v, options))(item) ==> right_origin(options.origin, item) && right_place(
            options.scope,
            item,
        ) && (options.class == ListClassFilter::Epic ==> item.item_class == ItemClass::Epic),
        right_origin(options.origin, item) && right_place(options.scope, item) && (options.class
            == ListClassFilter::Epic ==> item.item_class == ItemClass::Epic) && matches_view(
            v,
            options.view,
            item,
        ) ==> (listed(v, options))(item),
        right_origin(options.origin, item) && right_place(options.scope, item) && options.view
            != ListView::Default && item.item_class == ItemClass::Epic && (exists|i: int|
            0 <= i < v.items.len() && (#[trigger] v.items[i]).container_id == Some(item.id)
                && right_origin(options.origin, v.items[i]) && matches_view(
                v,
                options.view,
                v.items[i],
            )) ==> (listed(v, options))(item),
        (listed(v, options))(item) && !matches_view(v, options.view, item) ==> options.view
            != ListView::Default && item.item_class == ItemClass::Epic && exists|i: int|
            0 <= i < v.items.len() && (#[trigger] v.items[i]).container_id == Some(item.id)
                && right_origin(options.origin, v.items[i]) && matches_view(
                v,
                options.view,
                v.items[i],
            ),
{
    match options.origin {
        ListOriginFilter::Any => {},
        ListOriginFilter::Local => {},
        ListOriginFilter::Remote => {},
    }
}

/// The list without filters is the Items of the Local and of the remote one
/// together, and what is in an Epic's list is in the whole one.
pub proof fn law_lists_part_by_origin(v: StoreView, options: ListOptions<'_>, item: ItemView)
    requires
        v.wf(),
        options.origin == ListOriginFilter::Any,
        matches_view(v, options.view, item),
    ensures
        (listed(v, options))(item) == ((listed(
            v,
            ListOptions { origin: ListOriginFilter::Local, ..options },
        ))(item) || (listed(v, ListOptions { origin: ListOriginFilter::Remote, ..options }))(item)),
        !((listed(v, ListOptions { origin: ListOriginFilter::Local, ..options }))(item) && (listed(
            v,
            ListOptions { origin: ListOriginFilter::Remote, ..options },
        ))(item)),
        (listed(v, options))(item) ==> (listed(v, ListOptions { scope: None, ..options }))(item),
{
    match item.origin {
        Origin::Local => {},
        Origin::Backend => {},
    }
}

/// Whether a Mutation of the Item that makes no object is in the state.
pub open spec fn edit_in_state(v: StoreView, id: Seq<char>, state: MutationState) -> bool {
    exists|i: int|
        0 <= i < v.mutations.len() && (#[trigger] v.mutations[i]).item_id == id
            && v.mutations[i].state == state && !makes_object(v.mutations[i].mutation_type)
}

/// What an Item's status reads.
pub open spec fn reads_as(item: ItemView, status: ItemStatus) -> bool {
    &&& item.lifecycle == Lifecycle::Done <==> status == ItemStatus::Done
    &&& item.lifecycle == Lifecycle::Open && item.work_state == WorkState::Active <==> status
        == ItemStatus::Active
    &&& item.lifecycle == Lifecycle::Open && item.work_state == WorkState::Idle <==> status
        == ItemStatus::Open
}

/// A row of a list tells the Item's own fields, whether something holds it up,
/// and whether an edit of it is pending, or failed.
pub proof fn law_what_a_list_row_tells(v: StoreView, item: ItemView, row: ListRow)
    requires
        v.wf(),
        row.shows(v, item),
    ensures
        row.id@ == item.id,
        row.display_id@ == item.display_id,
        row.item_class == item.item_class,
        row.ticket_kind == item.ticket_kind,
        row.priority == item.priority,
        row.title@ == item.title,
        reads_as(item, row.status),
        row.container_id is Some == item.container_id is Some,
        row.container_id is Some ==> item.container_id == Some(row.container_id->0@),
        row.selection_state == item.selection_state,
        row.has_unresolved_blocker == held_up(v, item.id),
        row.has_pending_mutation == edit_in_state(v, item.id, MutationState::Pending),
        row.has_failed_mutation == edit_in_state(v, item.id, MutationState::Failed),
{
    law_what_blocks_an_item(v, item.id);
}

// ---- Search -------------------------------------------------------------

/// A search finds the Items, of whatever status, in whose title the query stands
/// somewhere, letter for letter but for ASCII case.
pub proof fn law_what_a_search_finds(query: Seq<char>, item: ItemView)
    ensures
        (titled(query))(item) == exists|at: int|
            0 <= at && at + query.len() <= item.title.len() && #[trigger] reads_at(
                item.title,
                query,
                at,
            ),
{
    let hay = item.title;
    assert forall|at: int| 0 <= at && at + query.len() <= hay.len() implies #[trigger] reads_at(
        hay,
        query,
        at,
    ) == crate::text::stands_at(hay, query, at) by {
        let part = hay.subrange(at, at + query.len() as int);
        if reads_at(hay, query, at) {
            assert forall|k: int| 0 <= k < query.len() implies folded(part)[k] == folded(query)[k] by {
                assert(lower(hay[at + k]) == lower(query[k]));
            }
            assert(folded(part) =~= folded(query));
        }
        if folded(part) == folded(query) {
            assert forall|k: int| 0 <= k < query.len() implies lower(#[trigger] hay[at + k])
                == lower(query[k]) by {
                assert(folded(part)[k] == lower(part[k]));
                assert(folded(query)[k] == lower(query[k]));
            }
        }
    }
    if (titled(query))(item) {
        let at = choose|at: int| crate::text::stands_at(hay, query, at);
        assert(reads_at(hay, query, at));
    }
    if exists|at: int|
        0 <= at && at + query.len() <= hay.len() && #[trigger] reads_at(hay, query, at) {
        let at = choose|at: int|
            0 <= at && at + query.len() <= hay.len() && #[trigger] reads_at(hay, query, at);
        assert(crate::text::stands_at(hay, query, at));
    }
}

/// Whether the query stands in the text at the place, but for ASCII case.
pub open spec fn reads_at(text: Seq<char>, query: Seq<char>, at: int) -> bool {
    forall|k: int| 0 <= k < query.len() ==> lower(#[trigger] text[at + k]) == lower(query[k])
}

/// An ASCII letter and its other case are one; everything else is itself alone.
pub proof fn law_case_is_that_of_ascii_letters(c: char)
    ensures
        'A' <= c <= 'Z' ==> lower(c) as int == c as int + 32,
        !('A' <= c <= 'Z') ==> lower(c) == c,
{
}

/// The scan of a content search tells an Item's fields as they are.
pub proof fn law_what_a_scan_tells(item: ItemView, found: GrepItem)
    requires
        found.shows(item),
    ensures
        found.display_id@ == item.display_id,
        found.item_class == item.item_class,
        found.ticket_kind == item.ticket_kind,
        found.priority == item.priority,
        found.title@ == item.title,
        found.body@ == item.body,
        reads_as(item, found.status),
        found.created_at@ == item.created_at,
        found.updated_at@ == item.updated_at,
{
}

// ---- Names --------------------------------------------------------------

/// A text names the Item whose Display ID or Alias it is, ASCII case ignored, and
/// nothing else.
pub proof fn law_what_a_text_names(v: StoreView, arg: Seq<char>, id: Seq<char>)
    requires
        v.wf(),
    ensures
        v.resolved(arg) == Some(id) <==> {
            ||| exists|i: int|
                0 <= i < v.items.len() && (#[trigger] v.items[i]).id == id && folded(
                    v.items[i].display_id,
                ) == folded(arg)
            ||| exists|i: int|
                0 <= i < v.aliases.len() && (#[trigger] v.aliases[i]).item_id == id && folded(
                    v.aliases[i].value,
                ) == folded(arg)
        },
{
    if v.names(arg, id) {
        lemma_resolved(v, arg, id);
    }
    if v.resolved(arg) == Some(id) {
        assert(v.names(arg, id));
    }
}

// ---- One Item in full ---------------------------------------------------

/// What is shown of an Item tells its own fields.
pub proof fn law_what_is_shown_of_an_item(item: ItemView, detail: ItemDetail)
    requires
        detail.shows(item),
    ensures
        detail.id@ == item.id,
        detail.display_id@ == item.display_id,
        detail.item_class == item.item_class,
        detail.ticket_kind == item.ticket_kind,
        detail.priority == item.priority,
        detail.selection_state == item.selection_state,
        detail.title@ == item.title,
        detail.body@ == item.body,
        detail.closing_reason is Some == item.closing_reason is Some,
        detail.closing_reason is Some ==> item.closing_reason == Some(detail.closing_reason->0@),
        reads_as(item, detail.status),
        detail.created_at@ == item.created_at,
        detail.updated_at@ == item.updated_at,
{
}

/// Whether a summary tells an Item.
pub open spec fn tells(summary: ItemSummary, item: ItemView) -> bool {
    &&& summary.display_id@ == item.display_id
    &&& summary.title@ == item.title
    &&& summary.item_class == item.item_class
    &&& reads_as(item, summary.status)
    &&& summary.priority == item.priority
}

/// Whether one Item waits on another.
pub open spec fn waits_for(v: StoreView, blocked: Seq<char>, blocking: Seq<char>) -> bool {
    exists|d: int|
        0 <= d < v.dependencies.len() && (#[trigger] v.dependencies[d]).blocked_id == blocked
            && v.dependencies[d].blocking_id == blocking
}

/// A Dependency is there where a row says so.
pub proof fn lemma_waits_for(v: StoreView, blocked: Seq<char>, blocking: Seq<char>)
    ensures
        v.has_dependency(blocked, blocking) == waits_for(v, blocked, blocking),
{
    let all = waits(v.dependencies);
    if waits_for(v, blocked, blocking) {
        let d = choose|d: int|
            0 <= d < v.dependencies.len() && (#[trigger] v.dependencies[d]).blocked_id == blocked
                && v.dependencies[d].blocking_id == blocking;
        assert(all[d] == (blocked, blocking));
    }
    if v.has_dependency(blocked, blocking) {
        let d = choose|d: int| 0 <= d < all.len() && all[d] == (blocked, blocking);
        assert(v.dependencies[d].blocked_id == blocked);
    }
}

/// Whether one of the summaries tells the Item.
pub open spec fn is_told(list: Seq<ItemSummary>, item: ItemView) -> bool {
    exists|k: int| 0 <= k < list.len() && tells(#[trigger] list[k], item)
}

/// Whether the summary tells a row of the kind.
pub open spec fn tells_one(
    v: StoreView,
    summary: ItemSummary,
    kind: spec_fn(ItemView) -> bool,
) -> bool {
    exists|i: int|
        0 <= i < v.items.len() && kind(#[trigger] v.items[i]) && tells(summary, v.items[i])
}

/// Whether the summaries tell every row of the kind, and no other.
pub open spec fn tells_exactly(
    v: StoreView,
    list: Seq<ItemSummary>,
    kind: spec_fn(ItemView) -> bool,
) -> bool {
    &&& forall|i: int|
        0 <= i < v.items.len() && kind(#[trigger] v.items[i]) ==> is_told(list, v.items[i])
    &&& forall|k: int| 0 <= k < list.len() ==> tells_one(v, #[trigger] list[k], kind)
}

/// A list of summaries tells every Item of a selection, and no other.
proof fn lemma_summaries(
    v: StoreView,
    list: Seq<ItemSummary>,
    cond: spec_fn(ItemView) -> bool,
    kind: spec_fn(ItemView) -> bool,
)
    requires
        summarised(list, v.items.filter(cond)),
        forall|i: int|
            0 <= i < v.items.len() ==> cond(#[trigger] v.items[i]) == kind(v.items[i]),
    ensures
        tells_exactly(v, list, kind),
{
    let chosen = v.items.filter(cond);
    lemma_filter_contains(v.items, cond);
    assert forall|i: int| 0 <= i < v.items.len() && kind(#[trigger] v.items[i]) implies is_told(
        list,
        v.items[i],
    ) by {
        assert(chosen.contains(v.items[i]));
        let k = choose|k: int| 0 <= k < chosen.len() && chosen[k] == v.items[i];
        assert(list[k].shows(chosen[k]));
        assert(tells(list[k], v.items[i]));
    }
    assert forall|k: int| 0 <= k < list.len() implies tells_one(v, #[trigger] list[k], kind) by {
        assert(list[k].shows(chosen[k]));
        assert(v.items.contains(chosen[k]));
        let i = choose|i: int| 0 <= i < v.items.len() && v.items[i] == chosen[k];
        assert(cond(v.items[i]) && tells(list[k], v.items[i]));
    }
}

/// Whether one of the reasons is that.
pub open spec fn is_reason(list: Seq<ExternalBlockerSummary>, reason: Seq<char>) -> bool {
    exists|k: int| 0 <= k < list.len() && (#[trigger] list[k]).reason@ == reason
}

/// Whether something outside that is not resolved holds the Item up for the
/// reason.
pub open spec fn held_for(v: StoreView, id: Seq<char>, reason: Seq<char>) -> bool {
    exists|b: int|
        0 <= b < v.external_blockers.len() && (#[trigger] v.external_blockers[b]).item_id == id
            && v.external_blockers[b].resolved_at is None && v.external_blockers[b].reason == reason
}

/// Around an Item are shown: the Epic it is in; of an Epic, everything in it; what
/// it waits on and is not done; what waits on it and is not done; and the reasons
/// of what it waits on outside and is not resolved. Of each, all, and nothing
/// else.
pub proof fn law_what_is_shown_around_an_item(v: StoreView, item: ItemView, detail: ItemDetail)
    requires
        v.wf(),
        v.items.contains(item),
        detail.shows_around(v, item),
    ensures
        detail.parent is Some == item.container_id is Some,
        detail.parent is Some ==> tells_one(
            v,
            detail.parent->0,
            |x: ItemView| x.id == item.container_id->0,
        ),
        item.item_class == ItemClass::Ticket ==> detail.children@.len() == 0,
        item.item_class == ItemClass::Epic ==> tells_exactly(
            v,
            detail.children@,
            |x: ItemView| x.container_id == Some(item.id),
        ),
        tells_exactly(
            v,
            detail.blocked_by@,
            |x: ItemView| waits_for(v, item.id, x.id) && x.lifecycle == Lifecycle::Open,
        ),
        tells_exactly(
            v,
            detail.blocking@,
            |x: ItemView| waits_for(v, x.id, item.id) && x.lifecycle == Lifecycle::Open,
        ),
        forall|reason: Seq<char>| #[trigger]
            is_reason(detail.external_blockers@, reason) == held_for(v, item.id, reason),
{
    let at = choose|at: int| 0 <= at < v.items.len() && v.items[at] == item;
    if item.container_id is Some {
        assert(v.items[at].container_id is Some);
        let ks = crate::tables::keys(v.items);
        let k = choose|k: int| 0 <= k < ks.len() && ks[k] == (item.container_id->0, ItemClass::Epic);
        lemma_row_has(v, k);
        let kind = |x: ItemView| x.id == item.container_id->0;
        assert(kind(v.items[k]) && tells(detail.parent->0, v.items[k]));
    }
    if item.item_class == ItemClass::Epic {
        lemma_summaries(
            v,
            detail.children@,
            child_of(item.id),
            |x: ItemView| x.container_id == Some(item.id),
        );
    }
    let before = awaited_by(v, item.id);
    let behind = awaiting(v, item.id);
    let first = |x: ItemView| waits_for(v, item.id, x.id) && x.lifecycle == Lifecycle::Open;
    let later = |x: ItemView| waits_for(v, x.id, item.id) && x.lifecycle == Lifecycle::Open;
    assert forall|i: int| 0 <= i < v.items.len() implies before(#[trigger] v.items[i]) == first(
        v.items[i],
    ) by {
        lemma_waits_for(v, item.id, v.items[i].id);
    }
    assert forall|i: int| 0 <= i < v.items.len() implies behind(#[trigger] v.items[i]) == later(
        v.items[i],
    ) by {
        lemma_waits_for(v, v.items[i].id, item.id);
    }
    lemma_summaries(v, detail.blocked_by@, before, first);
    lemma_summaries(v, detail.blocking@, behind, later);
    let cond = blocks_from_outside(item.id);
    let outside = v.external_blockers.filter(cond);
    let list = detail.external_blockers@;
    lemma_filter_contains(v.external_blockers, cond);
    assert forall|reason: Seq<char>| #[trigger] is_reason(list, reason) == held_for(
        v,
        item.id,
        reason,
    ) by {
        if held_for(v, item.id, reason) {
            let b = choose|b: int|
                0 <= b < v.external_blockers.len() && (#[trigger] v.external_blockers[b]).item_id
                    == item.id && v.external_blockers[b].resolved_at is None
                    && v.external_blockers[b].reason == reason;
            assert(cond(v.external_blockers[b]));
            let k = choose|k: int| 0 <= k < outside.len() && outside[k] == v.external_blockers[b];
            assert(list[k].reason@ == outside[k].reason);
        }
        if is_reason(list, reason) {
            let k = choose|k: int| 0 <= k < list.len() && (#[trigger] list[k]).reason@ == reason;
            assert(list[k].reason@ == outside[k].reason);
            assert(cond(outside[k]));
            let b = choose|b: int|
                0 <= b < v.external_blockers.len() && v.external_blockers[b] == outside[k];
            assert(v.external_blockers[b].item_id == item.id);
        }
    }
}

} // verus!
