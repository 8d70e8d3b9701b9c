//! What the calls that read answer.

use vstd::prelude::*;

use crate::domain::{
    BackendBinding, BindingView, ItemClass, Lifecycle, MutationState, Origin, SelectionState,
    WorkState,
};
use crate::laws::facts::{
    held_up, in_turn, lemma_row, lemma_selected, makes_object, startable, unsettled,
};
use crate::laws::log::{law_where_an_item_is_bound, meant_by, promoted_first};
use crate::laws::next::{
    law_the_selected_ticket_comes_first, law_what_a_selection_tells,
    law_which_tickets_may_be_selected, on_offer, selectable, urgency,
};
use crate::laws::reads::{
    edit_in_state, law_what_a_list_holds, law_what_a_list_row_tells, law_what_a_search_finds,
    law_what_a_text_names, law_what_each_view_shows, law_what_is_shown_of_an_item, reads_as,
    reads_at, right_origin, right_place,
};
use crate::laws::reports::{
    abandoned_last, has_abandoned, is_about_one, is_display_id,
    law_which_abandoned_promotions_are_reported, law_which_dependencies_are_in_the_graph,
    law_which_items_are_in_the_graph, reaches, reports_abandoned,
};
use crate::mutations::{
    awaited, awaited_in_operation, resolve_backend_binding, BackendBindingError, BindingFault,
};
use crate::promotion::graph::{
    graph_member, graph_pairs, read_graph, PromotionGraph, ReadGraphError,
};
use crate::promotion::recovery::lemma_mutation_target;
use crate::promotion::report::{
    abandoned_pairs, abandoned_promotions, earliest_applicable_mutation, latest_abandoned,
    unresolved_in_operation, AbandonedPromotion, MutationSummary,
};
use crate::repository::grep::{scan, GrepItem};
use crate::repository::list::{
    list_rows, listed, matches_view, ListClassFilter, ListOptions, ListRow, ListView,
};
use crate::repository::next::{
    build_rationale, Rationale, is_selected, next_ready_ticket, NextError, NextOptions, NextTicket,
};
use crate::repository::plan::{planned, read, PlanTicket};
use crate::repository::resolve::{
    resolve_as_epic, resolve_item_ref, ResolveEpicError, ResolvedItemRef,
};
use crate::repository::search::{search_rows, titled};
use crate::repository::show::{show_item, ItemDetail};
use crate::rows::ItemView;
use crate::select::lemma_filter_contains;
use crate::tables::{Store, StoreView};
use crate::text::folded;

verus! {

/// Whether a row tells an Item: its own fields, whether something holds it up,
/// and whether an edit of it is pending, or failed.
pub open spec fn row_tells(v: StoreView, row: ListRow, item: ItemView) -> bool {
    &&& row.id@ == item.id
    &&& row.display_id@ == item.display_id
    &&& row.item_class == item.item_class
    &&& row.ticket_kind == item.ticket_kind
    &&& row.priority == item.priority
    &&& row.title@ == item.title
    &&& reads_as(item, row.status)
    &&& row.selection_state == item.selection_state
    &&& row.has_unresolved_blocker == held_up(v, item.id)
    &&& row.has_pending_mutation == edit_in_state(v, item.id, MutationState::Pending)
    &&& row.has_failed_mutation == edit_in_state(v, item.id, MutationState::Failed)
}

/// Whether one of the rows tells the Item.
pub open spec fn has_row(v: StoreView, rows: Seq<ListRow>, item: ItemView) -> bool {
    exists|k: int| 0 <= k < rows.len() && row_tells(v, #[trigger] rows[k], item)
}

/// Whether the row tells an Item that meets the condition.
pub open spec fn row_of_one(v: StoreView, row: ListRow, cond: spec_fn(ItemView) -> bool) -> bool {
    exists|i: int| 0 <= i < v.items.len() && cond(#[trigger] v.items[i]) && row_tells(
        v,
        row,
        v.items[i],
    )
}

/// Whether rows tell the Items that meet a condition, all of them, no others,
/// and in creation order.
pub open spec fn rows_tell(
    v: StoreView,
    rows: Seq<ListRow>,
    cond: spec_fn(ItemView) -> bool,
) -> bool {
    &&& forall|i: int|
        0 <= i < v.items.len() && cond(#[trigger] v.items[i]) ==> has_row(v, rows, v.items[i])
    &&& forall|k: int| 0 <= k < rows.len() ==> row_of_one(v, #[trigger] rows[k], cond)
    &&& forall|a: int, b: int|
        0 <= a < b < rows.len() ==> stand_in_turn(v, #[trigger] rows[a], #[trigger] rows[b])
}

/// Whether the Item of one row was created before that of the other.
pub open spec fn stand_in_turn(v: StoreView, a: ListRow, b: ListRow) -> bool {
    exists|i: int, j: int|
        0 <= i < j < v.items.len() && (#[trigger] v.items[i]).id == a.id@ && (
        #[trigger] v.items[j]).id == b.id@
}

proof fn lemma_rows(
    v: StoreView,
    rows: Seq<ListRow>,
    picks: spec_fn(ItemView) -> bool,
    cond: spec_fn(ItemView) -> bool,
)
    requires
        v.wf(),
        forall|i: int| 0 <= i < v.items.len() ==> picks(#[trigger] v.items[i]) == cond(v.items[i]),
        rows.len() == v.items.filter(picks).len(),
        forall|k: int|
            0 <= k < rows.len() ==> (#[trigger] rows[k]).shows(v, v.items.filter(picks)[k]),
    ensures
        rows_tell(v, rows, cond),
{
    let shown = v.items.filter(picks);
    lemma_filter_contains(v.items, picks);
    lemma_selected(v.items, picks);
    assert forall|k: int| 0 <= k < rows.len() implies row_tells(v, rows[k], #[trigger] shown[k]) by {
        assert(rows[k].shows(v, shown[k]));
        law_what_a_list_row_tells(v, shown[k], rows[k]);
    }
    assert forall|i: int| 0 <= i < v.items.len() && cond(#[trigger] v.items[i]) implies has_row(
        v,
        rows,
        v.items[i],
    ) by {
        assert(picks(v.items[i]));
        let k = choose|k: int| 0 <= k < shown.len() && shown[k] == v.items[i];
        assert(row_tells(v, rows[k], shown[k]));
    }
    assert forall|k: int| 0 <= k < rows.len() implies row_of_one(v, #[trigger] rows[k], cond) by {
        assert(row_tells(v, rows[k], shown[k]));
        let i = choose|i: int| 0 <= i < v.items.len() && v.items[i] == shown[k];
        assert(picks(v.items[i]));
    }
    assert forall|a: int, b: int| 0 <= a < b < rows.len() implies stand_in_turn(
        v,
        #[trigger] rows[a],
        #[trigger] rows[b],
    ) by {
        assert(row_tells(v, rows[a], shown[a]) && row_tells(v, rows[b], shown[b]));
        assert(in_turn(v.items, shown[a], shown[b]));
        let (i, j) = choose|i: int, j: int|
            0 <= i < j < v.items.len() && #[trigger] v.items[i] == shown[a]
                && #[trigger] v.items[j] == shown[b];
        assert(v.items[i].id == rows[a].id@ && v.items[j].id == rows[b].id@);
    }
}

/// Whether a view shows the Item for its own sake.
pub open spec fn is_in_view(v: StoreView, view: ListView, item: ItemView) -> bool {
    let ticket = item.item_class == ItemClass::Ticket;
    match view {
        ListView::Default => item.lifecycle == Lifecycle::Open,
        ListView::Ready => ticket && startable(item) && item.selection_state == Some(
            SelectionState::Accepted,
        ) && !held_up(v, item.id),
        ListView::Blocked => ticket && item.lifecycle == Lifecycle::Open && (item.selection_state
            == Some(SelectionState::Accepted) || item.selection_state == Some(
            SelectionState::Parked,
        )) && held_up(v, item.id),
        ListView::Active => item.lifecycle == Lifecycle::Open && item.work_state
            == WorkState::Active,
        ListView::Triage => ticket && startable(item) && item.selection_state == Some(
            SelectionState::Triage,
        ),
        ListView::Parked => ticket && startable(item) && item.selection_state == Some(
            SelectionState::Parked,
        ),
    }
}

/// Whether a list with the options shows the Item: one of the right Origin,
/// class and Epic that the view shows, or, in every view but the default one,
/// an Epic around such an Item.
pub open spec fn is_wanted(v: StoreView, options: ListOptions<'_>, item: ItemView) -> bool {
    &&& right_origin(options.origin, item)
    &&& right_place(options.scope, item)
    &&& options.class == ListClassFilter::Epic ==> item.item_class == ItemClass::Epic
    &&& is_in_view(v, options.view, item) || (options.view != ListView::Default && item.item_class
        == ItemClass::Epic && exists|i: int|
        0 <= i < v.items.len() && (#[trigger] v.items[i]).container_id == Some(item.id)
            && right_origin(options.origin, v.items[i]) && is_in_view(
            v,
            options.view,
            v.items[i],
        ))
}

proof fn lemma_in_view(v: StoreView, view: ListView, item: ItemView)
    requires
        v.wf(),
    ensures
        matches_view(v, view, item) == is_in_view(v, view, item),
{
    law_what_each_view_shows(v, item);
}

/// A list tells the Items that it is asked for, all of them, no others, and in
/// creation order.
pub proof fn law_listing(store: &Store, options: ListOptions<'_>, r: Vec<ListRow>)
    requires
        store.wf(),
        call_ensures(list_rows, (store, options), r),
    ensures
        rows_tell(store@, r@, |item: ItemView| is_wanted(store@, options, item)),
{
    let v = store@;
    assert forall|i: int| 0 <= i < v.items.len() implies (listed(v, options))(
        #[trigger] v.items[i],
    ) == is_wanted(v, options, v.items[i]) by {
        law_what_a_list_holds(v, options, v.items[i]);
        lemma_in_view(v, options.view, v.items[i]);
        assert forall|k: int| 0 <= k < v.items.len() implies matches_view(
            v,
            options.view,
            #[trigger] v.items[k],
        ) == is_in_view(v, options.view, v.items[k]) by {
            lemma_in_view(v, options.view, v.items[k]);
        }
    }
    lemma_rows(
        v,
        r@,
        listed(v, options),
        |item: ItemView| is_wanted(v, options, item),
    );
}

/// Whether the query stands somewhere in the title, but for ASCII case.
pub open spec fn title_has(item: ItemView, query: Seq<char>) -> bool {
    exists|at: int|
        0 <= at && at + query.len() <= item.title.len() && #[trigger] reads_at(
            item.title,
            query,
            at,
        )
}

/// A search tells the Items in whose title the query stands, all of them, no
/// others, and in creation order.
pub proof fn law_searching(store: &Store, query: &str, r: Vec<ListRow>)
    requires
        store.wf(),
        call_ensures(search_rows, (store, query), r),
    ensures
        rows_tell(store@, r@, |item: ItemView| title_has(item, query@)),
{
    let v = store@;
    assert forall|i: int| 0 <= i < v.items.len() implies (titled(query@))(#[trigger] v.items[i])
        == title_has(v.items[i], query@) by {
        law_what_a_search_finds(query@, v.items[i]);
    }
    lemma_rows(v, r@, titled(query@), |item: ItemView| title_has(item, query@));
}

/// The next Ticket is one that nobody works on and nothing holds up, on offer in
/// the scope; no such Ticket is more urgent. None is given only where no such
/// Ticket with a Priority is.
pub proof fn law_selecting(
    store: &Store,
    options: NextOptions<'_>,
    r: Result<Option<NextTicket>, NextError>,
)
    requires
        store.wf(),
        call_ensures(next_ready_ticket, (store, options), r),
    ensures
        match r {
            Ok(Some(ticket)) => exists|i: int|
                0 <= i < store@.items.len() && (#[trigger] store@.items[i]).display_id
                    == ticket.display_id@ && is_best(store@, options, i),
            Ok(None) => forall|i: int|
                0 <= i < store@.items.len() && (#[trigger] store@.items[i]).item_class
                    == ItemClass::Ticket && startable(store@.items[i]) && !held_up(
                    store@,
                    store@.items[i].id,
                ) && on_offer(store@, options.scope, store@.items[i])
                    ==> store@.items[i].priority is None,
            Err(_) => exists|i: int|
                0 <= i < store@.items.len() && (#[trigger] store@.items[i]).priority is None
                    && is_best(store@, options, i),
        },
{
    let v = store@;
    let scope = options.scope;
    match r {
        Ok(None) => {
            assert forall|i: int|
                0 <= i < v.items.len() && (#[trigger] v.items[i]).item_class == ItemClass::Ticket
                    && startable(v.items[i]) && !held_up(v, v.items[i].id) && on_offer(
                    v,
                    scope,
                    v.items[i],
                ) implies v.items[i].priority is None by {
                law_which_tickets_may_be_selected(v, scope, i);
            }
        },
        Ok(Some(ticket)) => {
            let i = choose|i: int| #[trigger]
                is_selected(v, scope, i) && crate::repository::next::selection_shown(
                    v,
                    scope,
                    v.items[i],
                    ticket,
                );
            law_what_a_selection_tells(v, scope, i, ticket);
            lemma_best(v, options, i);
        },
        Err(_) => {
            let i = choose|i: int| #[trigger]
                is_selected(v, scope, i) && v.items[i].priority is None;
            lemma_best(v, options, i);
        },
    }
}

/// Whether the Ticket may be started, nothing holds it up, it is on offer, and
/// no other such Ticket has a Priority more urgent than the most urgent heard at
/// this one.
pub open spec fn is_best(v: StoreView, options: NextOptions<'_>, i: int) -> bool {
    let heard = crate::repository::next::effective(v, options.scope, v.items[i].id);
    &&& v.items[i].item_class == ItemClass::Ticket
    &&& startable(v.items[i])
    &&& !held_up(v, v.items[i].id)
    &&& on_offer(v, options.scope, v.items[i])
    &&& heard is Some
    &&& forall|j: int|
        0 <= j < v.items.len() && selectable(v, options.scope, #[trigger] v.items[j]) ==> urgency(
            heard->0,
        ) <= urgency(
            crate::repository::next::effective(v, options.scope, v.items[j].id)->0,
        )
}

proof fn lemma_best(v: StoreView, options: NextOptions<'_>, i: int)
    requires
        v.wf(),
        is_selected(v, options.scope, i),
    ensures
        0 <= i < v.items.len(),
        is_best(v, options, i),
{
    law_which_tickets_may_be_selected(v, options.scope, i);
    assert forall|j: int|
        0 <= j < v.items.len() && selectable(v, options.scope, #[trigger] v.items[j]) implies urgency(
        crate::repository::next::effective(v, options.scope, v.items[i].id)->0,
    ) <= urgency(crate::repository::next::effective(v, options.scope, v.items[j].id)->0) by {
        law_the_selected_ticket_comes_first(v, options.scope, i, j);
    }
}

/// Whether the text is the Item's Display ID or an Alias of it, ASCII case
/// ignored.
pub open spec fn goes_by(v: StoreView, id: Seq<char>, text: Seq<char>) -> bool {
    ||| exists|i: int|
        0 <= i < v.items.len() && (#[trigger] v.items[i]).id == id && folded(v.items[i].display_id)
            == folded(text)
    ||| exists|i: int|
        0 <= i < v.aliases.len() && (#[trigger] v.aliases[i]).item_id == id && folded(
            v.aliases[i].value,
        ) == folded(text)
}

/// A text is resolved to the Item that goes by it, and to none where none does;
/// as an Epic it is resolved only where that Item is one.
pub proof fn law_resolving(
    store: &Store,
    text: &str,
    r: Option<ResolvedItemRef>,
    epic: Result<ResolvedItemRef, ResolveEpicError>,
)
    requires
        store.wf(),
        call_ensures(resolve_item_ref, (store, text), r),
        call_ensures(resolve_as_epic, (store, text), epic),
    ensures
        match r {
            Some(found) => goes_by(store@, found.id@, text@) && found.item_class == store@.item(
                found.id@,
            ).item_class,
            None => forall|id: Seq<char>| !#[trigger] goes_by(store@, id, text@),
        },
        match epic {
            Ok(found) => r is Some && found.id@ == r->0.id@ && r->0.item_class == ItemClass::Epic
                && found.item_class == ItemClass::Epic,
            Err(ResolveEpicError::NotAnEpic) => r is Some && r->0.item_class == ItemClass::Ticket,
            Err(ResolveEpicError::NotFound) => r is None,
        },
{
    let v = store@;
    match r {
        Some(found) => {
            law_what_a_text_names(v, text@, found.id@);
        },
        None => {
            assert forall|id: Seq<char>| !#[trigger] goes_by(v, id, text@) by {
                law_what_a_text_names(v, text@, id);
            }
        },
    }
}

/// What is shown is the Item that the text names, as its row has it; nothing is
/// where no Item goes by the text.
pub proof fn law_showing(store: &Store, text: &str, r: Option<ItemDetail>)
    requires
        store.wf(),
        call_ensures(show_item, (store, text), r),
    ensures
        match r {
            Some(detail) => goes_by(store@, detail.id@, text@) && ({
                let item = store@.item(detail.id@);
                &&& detail.display_id@ == item.display_id
                &&& detail.item_class == item.item_class
                &&& detail.ticket_kind == item.ticket_kind
                &&& detail.priority == item.priority
                &&& detail.selection_state == item.selection_state
                &&& detail.title@ == item.title
                &&& detail.body@ == item.body
                &&& reads_as(item, detail.status)
            }),
            None => forall|id: Seq<char>| !#[trigger] goes_by(store@, id, text@),
        },
{
    let v = store@;
    match r {
        Some(detail) => {
            let id = v.resolved(text@)->0;
            law_what_a_text_names(v, text@, id);
            crate::repository::detach::lemma_resolved_has(v, text@);
            lemma_row(v, id);
            law_what_is_shown_of_an_item(v.item(id), detail);
        },
        None => {
            assert forall|id: Seq<char>| !#[trigger] goes_by(v, id, text@) by {
                law_what_a_text_names(v, text@, id);
            }
        },
    }
}

/// A scan goes over all Items, one after another, and tells each as it is.
pub proof fn law_scanning(store: &Store, i: usize, r: Option<GrepItem>)
    requires
        call_ensures(scan, (store, i), r),
    ensures
        (r is Some) == (i < store@.items.len()),
        r is Some ==> ({
            let item = store@.items[i as int];
            &&& r->0.display_id@ == item.display_id
            &&& r->0.title@ == item.title
            &&& r->0.body@ == item.body
            &&& r->0.item_class == item.item_class
            &&& reads_as(item, r->0.status)
        }),
{
}

/// Where an Item is bound is what stands in its row, or what its earliest
/// unsettled Promotion says.
pub proof fn law_binding(
    store: &Store,
    id: &str,
    r: Result<BackendBinding, BackendBindingError>,
)
    requires
        store.wf(),
        call_ensures(resolve_backend_binding, (store, id), r),
    ensures
        !store@.has(id@) ==> r is Err,
        store@.has(id@) && store@.item(id@).origin == Origin::Backend ==> (r
            matches Ok(BackendBinding::Backend { backend_kind }) && store@.item(id@).backend_kind
            == Some(backend_kind@)),
        store@.has(id@) && store@.item(id@).origin == Origin::Local && (forall|i: int|
            0 <= i < store@.mutations.len() && makes_object(
                (#[trigger] store@.mutations[i]).mutation_type,
            ) && store@.mutations[i].item_id == id@ ==> !unsettled(store@.mutations[i].state)) ==> r
            == Ok::<BackendBinding, BackendBindingError>(BackendBinding::Local),
        store@.has(id@) && store@.item(id@).origin == Origin::Local ==> forall|i: int| #[trigger]
            promoted_first(store@, id@, i) ==> match r {
                Ok(found) => meant_by(store@.mutations[i].payload_json) == Ok::<
                    BindingView,
                    BindingFault,
                >(found@),
                Err(error) => meant_by(store@.mutations[i].payload_json) == Err::<
                    BindingView,
                    BindingFault,
                >(error@),
            },
{
    let v = store@;
    if v.has(id@) {
        law_where_an_item_is_bound(v, id@);
        lemma_row(v, id@);
        assert(v.item(id@).admitted());
        if v.item(id@).origin == Origin::Local {
            assert forall|i: int| #[trigger] promoted_first(v, id@, i) implies match r {
                Ok(found) => meant_by(v.mutations[i].payload_json) == Ok::<
                    BindingView,
                    BindingFault,
                >(found@),
                Err(error) => meant_by(v.mutations[i].payload_json) == Err::<
                    BindingView,
                    BindingFault,
                >(error@),
            } by {
                assert(v.mutations[i].item_id == id@);
                assert(crate::laws::facts::being_promoted(v, id@));
                let k = choose|k: int| #[trigger]
                    promoted_first(v, id@, k) && crate::mutations::binding(v, id@) == meant_by(
                        v.mutations[k].payload_json,
                    );
                if k < i {
                    assert(v.mutations[k].item_id == id@);
                } else if i < k {
                    assert(v.mutations[i].item_id == id@);
                }
            }
        }
    }
}

/// The earliest applicable Mutation is the first of the log that is unsettled,
/// told with its state and its Item's Display ID; there is none exactly where
/// all are settled.
pub proof fn law_earliest(store: &Store, r: Option<MutationSummary>)
    requires
        store.wf(),
        call_ensures(earliest_applicable_mutation, (store,), r),
    ensures
        match r {
            None => forall|i: int|
                0 <= i < store@.mutations.len() ==> !unsettled(
                    (#[trigger] store@.mutations[i]).state,
                ),
            Some(found) => exists|i: int| #[trigger]
                unsettled_first(store@, i) && found.sequence == store@.mutations[i].sequence
                    && found.state == store@.mutations[i].state && is_display_id(
                    store@,
                    store@.mutations[i].item_id,
                    found.target_display_id@,
                ),
        },
{
    let v = store@;
    let cond = awaited();
    crate::laws::facts::lemma_none_selected(v.mutations, cond);
    if v.mutations.filter(cond).len() > 0 {
        let i = lemma_unsettled_first(v);
        assert(unsettled_first(v, i));
    } else {
        assert forall|i: int| 0 <= i < v.mutations.len() implies !unsettled(
            (#[trigger] v.mutations[i]).state,
        ) by {
            assert(!cond(v.mutations[i]));
        }
    }
}

/// Whether the Mutation is the first of the log that is unsettled.
pub open spec fn unsettled_first(v: StoreView, i: int) -> bool {
    &&& 0 <= i < v.mutations.len()
    &&& unsettled(v.mutations[i].state)
    &&& forall|j: int| 0 <= j < i ==> !unsettled((#[trigger] v.mutations[j]).state)
}

proof fn lemma_unsettled_first(v: StoreView) -> (i: int)
    requires
        v.wf(),
        v.mutations.filter(awaited()).len() > 0,
    ensures
        unsettled_first(v, i),
        v.mutations.filter(awaited())[0] == v.mutations[i],
        is_display_id(v, v.mutations[i].item_id, v.item(v.mutations[i].item_id).display_id),
{
    let cond = awaited();
    let i = crate::laws::facts::lemma_first_selected(v.mutations, cond);
    assert forall|j: int| 0 <= j < i implies !unsettled((#[trigger] v.mutations[j]).state) by {
        assert(!cond(v.mutations[j]));
    }
    lemma_mutation_target(v, i);
    lemma_row(v, v.mutations[i].item_id);
    assert(v.items[v.at(v.mutations[i].item_id)].id == v.mutations[i].item_id);
    i
}

/// Whether a line tells a Mutation of the operation that is unsettled.
pub open spec fn tells_unsettled(
    v: StoreView,
    line: MutationSummary,
    operation_id: Seq<char>,
) -> bool {
    exists|i: int|
        0 <= i < v.mutations.len() && unsettled((#[trigger] v.mutations[i]).state)
            && v.mutations[i].promotion_operation_id == Some(operation_id) && line.sequence
            == v.mutations[i].sequence && line.state == v.mutations[i].state
}

/// Whether a line has the sequence.
pub open spec fn has_line(lines: Seq<MutationSummary>, sequence: int) -> bool {
    exists|k: int| 0 <= k < lines.len() && (#[trigger] lines[k]).sequence == sequence
}

/// What is unresolved in an operation are its unsettled Mutations, all of them,
/// no others, and in the order of the log.
pub proof fn law_unresolved(store: &Store, operation_id: &str, r: Vec<MutationSummary>)
    requires
        store.wf(),
        call_ensures(unresolved_in_operation, (store, operation_id), r),
    ensures
        forall|i: int|
            0 <= i < store@.mutations.len() && unsettled((#[trigger] store@.mutations[i]).state)
                && store@.mutations[i].promotion_operation_id == Some(operation_id@) ==> has_line(
                r@,
                store@.mutations[i].sequence,
            ),
        forall|k: int|
            0 <= k < r@.len() ==> tells_unsettled(store@, #[trigger] r@[k], operation_id@),
        forall|a: int, b: int|
            0 <= a < b < r@.len() ==> (#[trigger] r@[a]).sequence < (#[trigger] r@[b]).sequence,
{
    let v = store@;
    let cond = awaited_in_operation(operation_id@);
    let rows = v.mutations.filter(cond);
    lemma_filter_contains(v.mutations, cond);
    lemma_selected(v.mutations, cond);
    assert forall|i: int|
        0 <= i < v.mutations.len() && unsettled((#[trigger] v.mutations[i]).state)
            && v.mutations[i].promotion_operation_id == Some(operation_id@) implies has_line(
        r@,
        v.mutations[i].sequence,
    ) by {
        assert(cond(v.mutations[i]));
        let k = choose|k: int| 0 <= k < rows.len() && rows[k] == v.mutations[i];
        assert(r@[k].shows(v, rows[k]));
    }
    assert forall|k: int| 0 <= k < r@.len() implies tells_unsettled(
        v,
        #[trigger] r@[k],
        operation_id@,
    ) by {
        assert(r@[k].shows(v, rows[k]));
        let i = choose|i: int| 0 <= i < v.mutations.len() && v.mutations[i] == rows[k];
        assert(cond(v.mutations[i]));
    }
    assert forall|a: int, b: int| 0 <= a < b < r@.len() implies (#[trigger] r@[a]).sequence < (
    #[trigger] r@[b]).sequence by {
        assert(r@[a].shows(v, rows[a]) && r@[b].shows(v, rows[b]));
        assert(in_turn(v.mutations, rows[a], rows[b]));
    }
}

/// Whether a line of the Plan tells an Item, and that something holds it up
/// exactly where something does.
pub open spec fn plan_tells(v: StoreView, line: PlanTicket, item: ItemView) -> bool {
    &&& line.display_id@ == item.display_id
    &&& line.title@ == item.title
    &&& line.priority == item.priority
    &&& item.selection_state == Some(line.selection)
    &&& reads_as(item, line.status)
    &&& (line.blockers@.len() > 0) == held_up(v, item.id)
}

/// Whether one of the lines tells the Item.
pub open spec fn has_member(v: StoreView, lines: Seq<PlanTicket>, item: ItemView) -> bool {
    exists|k: int| 0 <= k < lines.len() && plan_tells(v, #[trigger] lines[k], item)
}

/// Whether the line tells an Item of the Plan.
pub open spec fn is_member(v: StoreView, line: PlanTicket) -> bool {
    exists|i: int|
        0 <= i < v.items.len() && v.plan.contains((#[trigger] v.items[i]).id) && plan_tells(
            v,
            line,
            v.items[i],
        )
}

/// What is read of the Plan is every Item in it and no other, each as it stands.
pub proof fn law_reading_the_plan(store: &Store, r: Vec<PlanTicket>)
    requires
        store.wf(),
        call_ensures(read, (store,), r),
    ensures
        forall|i: int|
            0 <= i < store@.items.len() && store@.plan.contains((#[trigger] store@.items[i]).id)
                ==> has_member(store@, r@, store@.items[i]),
        forall|k: int| 0 <= k < r@.len() ==> is_member(store@, #[trigger] r@[k]),
        r@.len() <= store@.items.len(),
{
    let v = store@;
    let cond = planned(v);
    let members = v.items.filter(cond);
    lemma_filter_contains(v.items, cond);
    assert forall|k: int| 0 <= k < r@.len() implies plan_tells(v, r@[k], #[trigger] members[k]) by {
        assert(r@[k].shows(v, members[k]));
        crate::laws::plan::lemma_blocked(v, members[k].id);
    }
    assert forall|i: int|
        0 <= i < v.items.len() && v.plan.contains((#[trigger] v.items[i]).id) implies has_member(
        v,
        r@,
        v.items[i],
    ) by {
        assert(cond(v.items[i]));
        let k = choose|k: int| 0 <= k < members.len() && members[k] == v.items[i];
        assert(plan_tells(v, r@[k], members[k]));
    }
    assert forall|k: int| 0 <= k < r@.len() implies is_member(v, #[trigger] r@[k]) by {
        assert(plan_tells(v, r@[k], members[k]));
        let i = choose|i: int| 0 <= i < v.items.len() && v.items[i] == members[k];
        assert(cond(v.items[i]));
    }
}

/// Whether the Item is in the graph of the target: near it, or an end of a
/// Dependency that reaches what is.
pub open spec fn is_around(v: StoreView, target: Seq<char>, id: Seq<char>) -> bool {
    ||| crate::laws::reports::is_near(v, target, id)
    ||| exists|other: Seq<char>| #[trigger] reaches(v, target, id, other)
    ||| exists|other: Seq<char>| #[trigger] reaches(v, target, other, id)
}

/// Whether a node of the graph tells the Item.
pub open spec fn has_node(graph: PromotionGraph, item: ItemView) -> bool {
    exists|k: int|
        0 <= k < graph.items@.len() && (#[trigger] graph.items@[k]).id@ == item.id
            && graph.items@[k].display_id@ == item.display_id && graph.items@[k].item_class
            == item.item_class && reads_as(item, graph.items@[k].status)
}

/// Whether a node of the graph is an Item around the target.
pub open spec fn is_node(v: StoreView, target: Seq<char>, id: Seq<char>) -> bool {
    exists|i: int|
        0 <= i < v.items.len() && (#[trigger] v.items[i]).id == id && is_around(v, target, id)
}

/// Whether the graph has the Dependency.
pub open spec fn has_edge(graph: PromotionGraph, blocked: Seq<char>, blocking: Seq<char>) -> bool {
    exists|k: int|
        0 <= k < graph.dependencies@.len() && (#[trigger] graph.dependencies@[k]).blocked_id@
            == blocked && graph.dependencies@[k].blocking_id@ == blocking
}

/// The graph has the Items around the target, all of them and no others, and
/// exactly the Dependencies that reach what is near it.
pub proof fn law_reading_a_graph(
    store: &Store,
    target: &str,
    children: bool,
    r: Result<PromotionGraph, ReadGraphError>,
)
    requires
        store.wf(),
        call_ensures(read_graph, (store, target, children), r),
    ensures
        r is Ok ==> {
            let graph = r->Ok_0;
            &&& store@.has(target@)
            &&& graph.target_id@ == target@
            &&& graph.children_requested == children
            &&& forall|i: int|
                0 <= i < store@.items.len() && is_around(
                    store@,
                    target@,
                    (#[trigger] store@.items[i]).id,
                ) ==> has_node(graph, store@.items[i])
            &&& forall|k: int|
                0 <= k < graph.items@.len() ==> is_node(
                    store@,
                    target@,
                    (#[trigger] graph.items@[k]).id@,
                )
            &&& forall|a: Seq<char>, b: Seq<char>| #[trigger]
                has_edge(graph, a, b) == reaches(store@, target@, a, b)
        },
{
    if r is Ok {
        let v = store@;
        let graph = r->Ok_0;
        let cond = graph_member(v, target@);
        let members = v.items.filter(cond);
        lemma_filter_contains(v.items, cond);
        assert forall|i: int| 0 <= i < v.items.len() implies cond(#[trigger] v.items[i])
            == is_around(v, target@, v.items[i].id) by {
            law_which_items_are_in_the_graph(v, target@, v.items[i].id);
        }
        assert forall|i: int|
            0 <= i < v.items.len() && is_around(
                v,
                target@,
                (#[trigger] v.items[i]).id,
            ) implies has_node(graph, v.items[i]) by {
            assert(cond(v.items[i]));
            let k = choose|k: int| 0 <= k < members.len() && members[k] == v.items[i];
            assert(graph.items@[k].shows(
                members[k],
                crate::mutations::binding(v, members[k].id)->Ok_0,
            ));
        }
        assert forall|k: int| 0 <= k < graph.items@.len() implies is_node(
            v,
            target@,
            (#[trigger] graph.items@[k]).id@,
        ) by {
            assert(graph.items@[k].shows(
                members[k],
                crate::mutations::binding(v, members[k].id)->Ok_0,
            ));
            let i = choose|i: int| 0 <= i < v.items.len() && v.items[i] == members[k];
            assert(cond(v.items[i]));
        }
        assert forall|a: Seq<char>, b: Seq<char>| #[trigger] has_edge(graph, a, b) == reaches(
            v,
            target@,
            a,
            b,
        ) by {
            lemma_edge(v, target@, graph, a, b);
        }
    }
}

proof fn lemma_edge(
    v: StoreView,
    target: Seq<char>,
    graph: PromotionGraph,
    a: Seq<char>,
    b: Seq<char>,
)
    requires
        v.wf(),
        v.has(target),
        forall|p: (Seq<char>, Seq<char>)| #[trigger]
            graph_pairs(graph.dependencies@).contains(p) == crate::promotion::graph::touches(
                v,
                target,
                p,
            ),
    ensures
        has_edge(graph, a, b) == reaches(v, target, a, b),
{
    law_which_dependencies_are_in_the_graph(v, target, a, b);
    let pairs = graph_pairs(graph.dependencies@);
    assert(pairs.contains((a, b)) == crate::promotion::graph::touches(v, target, (a, b)));
    if has_edge(graph, a, b) {
        let k = choose|k: int|
            0 <= k < graph.dependencies@.len() && (#[trigger] graph.dependencies@[k]).blocked_id@
                == a && graph.dependencies@[k].blocking_id@ == b;
        assert(pairs[k] == (a, b));
    }
    if pairs.contains((a, b)) {
        let k = choose|k: int| 0 <= k < pairs.len() && pairs[k] == (a, b);
        assert(graph.dependencies@[k].blocked_id@ == a);
    }
}

/// Whether one of the lines tells the latest abandoned Promotion of the Item.
pub open spec fn tells_abandoned(
    v: StoreView,
    lines: Seq<AbandonedPromotion>,
    id: Seq<char>,
) -> bool {
    exists|k: int|
        0 <= k < lines.len() && reports_abandoned(
            v,
            id,
            ((#[trigger] lines[k]).sequence as int, lines[k].display_id@),
        )
}

/// Whether the line tells the latest abandoned Promotion of one of the Items.
pub open spec fn is_abandonment(
    v: StoreView,
    ids: Seq<String>,
    line: AbandonedPromotion,
) -> bool {
    is_about_one(v, ids, (line.sequence as int, line.display_id@))
}

/// What is told of abandoned Promotions is the latest of each Item asked about
/// that has one, and no other, in the order of the log.
pub proof fn law_telling_what_was_abandoned(
    store: &Store,
    ids: &[String],
    r: Vec<AbandonedPromotion>,
)
    requires
        store.wf(),
        call_ensures(abandoned_promotions, (store, ids), r),
    ensures
        forall|j: int, i: int|
            #![trigger ids@[j], store@.mutations[i]]
            0 <= j < ids@.len() && abandoned_last(store@, ids@[j]@, i) ==> tells_abandoned(
                store@,
                r@,
                ids@[j]@,
            ),
        forall|k: int| 0 <= k < r@.len() ==> is_abandonment(store@, ids@, #[trigger] r@[k]),
        forall|a: int, b: int|
            0 <= a <= b < r@.len() ==> (#[trigger] r@[a]).sequence <= (#[trigger] r@[b]).sequence,
{
    let v = store@;
    let told = abandoned_pairs(r@);
    let due = latest_abandoned(v, ids@);
    law_which_abandoned_promotions_are_reported(v, ids@);
    told.to_multiset_ensures();
    due.to_multiset_ensures();
    assert forall|j: int, i: int|
        #![trigger ids@[j], v.mutations[i]]
        0 <= j < ids@.len() && abandoned_last(v, ids@[j]@, i) implies tells_abandoned(
        v,
        r@,
        ids@[j]@,
    ) by {
        assert(has_abandoned(v, ids@[j]@, due));
        let k = choose|k: int| 0 <= k < due.len() && reports_abandoned(v, ids@[j]@, #[trigger] due[k]);
        assert(due.contains(due[k]));
        assert(due.to_multiset().count(due[k]) > 0);
        assert(told.to_multiset().count(due[k]) > 0);
        assert(told.contains(due[k]));
        let n = choose|n: int| 0 <= n < told.len() && told[n] == due[k];
        assert(told[n] == (r@[n].sequence as int, r@[n].display_id@));
    }
    assert forall|k: int| 0 <= k < r@.len() implies is_abandonment(v, ids@, #[trigger] r@[k]) by {
        assert(told[k] == (r@[k].sequence as int, r@[k].display_id@));
        assert(told.contains(told[k]));
        assert(told.to_multiset().count(told[k]) > 0);
        assert(due.to_multiset().count(told[k]) > 0);
        assert(due.contains(told[k]));
        let n = choose|n: int| 0 <= n < due.len() && due[n] == told[k];
        assert(is_about_one(v, ids@, due[n]));
    }
}

/// A reason is told exactly where the Effective Priority is not the Ticket's own
/// and another Ticket is known to lend it; and then it tells both.
pub proof fn law_telling_a_reason(
    own: &str,
    effective: String,
    contributor: Option<String>,
    r: Option<Rationale>,
)
    requires
        call_ensures(build_rationale, (own, effective, contributor), r),
    ensures
        (r is Some) == (own@ != effective@ && contributor is Some),
        r is Some ==> r->0.effective_priority@ == effective@ && r->0.blocked_display_id@
            == contributor->0@,
{
}

} // verus!
