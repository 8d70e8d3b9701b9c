//! The List Tree: which Items a view shows.

use vstd::prelude::*;

use crate::domain::{
    ItemClass, ItemStatus, MutationState, Origin, Priority, SelectionState, TicketKind,
};
use crate::rows::{copy_text, opt_text, text_is, Item, ItemView};
use crate::select::{in_table, picked};
use crate::tables::{Store, StoreView};
use crate::text::same_text;

use super::pick::{has_queued, is_blocked, item_places, queued, waits_externally, waits_on_open};

verus! {

/// One row of the List Tree.
#[derive(Clone, Debug, PartialEq, Eq)]
pub struct ListRow {
    pub id: String,
    pub display_id: String,
    pub item_class: ItemClass,
    pub ticket_kind: Option<TicketKind>,
    pub priority: Option<Priority>,
    pub title: String,
    pub status: ItemStatus,
    /// Internal ID of the containing Epic, if any.
    pub container_id: Option<String>,
    pub selection_state: Option<SelectionState>,
    pub has_unresolved_blocker: bool,
    /// Whether a pending Mutation of the Item is no Promotion: a queued edit
    /// is not the same as an Item that is not on the Backend at all.
    pub has_pending_mutation: bool,
    /// The same for a failed Mutation.
    pub has_failed_mutation: bool,
}

impl ListRow {
    /// Whether the row shows the Item.
    pub open spec fn shows(&self, v: StoreView, item: ItemView) -> bool {
        &&& self.id@ == item.id
        &&& self.display_id@ == item.display_id
        &&& self.item_class == item.item_class
        &&& self.ticket_kind == item.ticket_kind
        &&& self.priority == item.priority
        &&& self.title@ == item.title
        &&& self.status == item.status()
        &&& opt_text(self.container_id) == item.container_id
        &&& self.selection_state == item.selection_state
        &&& self.has_unresolved_blocker == is_blocked(v, item.id)
        &&& self.has_pending_mutation == has_queued(v, item.id, MutationState::Pending)
        &&& self.has_failed_mutation == has_queued(v, item.id, MutationState::Failed)
    }
}

/// Which Items a listing shows.
#[derive(Clone, Copy, Debug, PartialEq, Eq, Structural, Default)]
pub enum ListView {
    /// Open and active Items.
    #[default]
    Default,
    /// Open accepted Tickets that wait on nothing.
    Ready,
    /// Open or active Tickets, not in triage, that wait on something.
    Blocked,
    /// Active Items.
    Active,
    /// Open Tickets in triage.
    Triage,
    /// Open parked Tickets.
    Parked,
}

/// Which Origins a listing shows.
#[derive(Clone, Copy, Debug, PartialEq, Eq, Structural, Default)]
pub enum ListOriginFilter {
    #[default]
    Any,
    Local,
    Remote,
}

/// Which classes a listing shows.
#[derive(Clone, Copy, Debug, PartialEq, Eq, Structural, Default)]
pub enum ListClassFilter {
    #[default]
    Any,
    Epic,
}

/// What a listing asks for. `scope` is the internal ID of an Epic and confines
/// the rows to it and its direct children.
#[derive(Clone, Copy, Debug, Default)]
pub struct ListOptions<'a> {
    pub view: ListView,
    pub origin: ListOriginFilter,
    pub class: ListClassFilter,
    pub scope: Option<&'a str>,
}

/// Whether a view shows the Item for its own sake.
pub open spec fn matches_view(v: StoreView, view: ListView, item: ItemView) -> bool {
    let ticket = item.item_class == ItemClass::Ticket;
    match view {
        ListView::Default => item.status() != ItemStatus::Done,
        ListView::Ready => ticket && item.status() == ItemStatus::Open && item.selection_state
            == Some(SelectionState::Accepted) && !is_blocked(v, item.id),
        ListView::Blocked => ticket && item.status() != ItemStatus::Done && item.selection_state
            is Some && item.selection_state != Some(SelectionState::Triage) && is_blocked(
            v,
            item.id,
        ),
        ListView::Active => item.status() == ItemStatus::Active,
        ListView::Triage => ticket && item.status() == ItemStatus::Open && item.selection_state
            == Some(SelectionState::Triage),
        ListView::Parked => ticket && item.status() == ItemStatus::Open && item.selection_state
            == Some(SelectionState::Parked),
    }
}

/// Whether the Item's Origin is shown.
pub open spec fn matches_origin(filter: ListOriginFilter, item: ItemView) -> bool {
    match filter {
        ListOriginFilter::Any => true,
        ListOriginFilter::Local => item.origin == Origin::Local,
        ListOriginFilter::Remote => item.origin == Origin::Backend,
    }
}

/// Whether the Item's class is shown.
pub open spec fn matches_class(filter: ListClassFilter, item: ItemView) -> bool {
    match filter {
        ListClassFilter::Any => true,
        ListClassFilter::Epic => item.item_class == ItemClass::Epic,
    }
}

/// Whether the Item is the scope's Epic or directly in it. No scope, or an
/// empty one, confines nothing.
pub open spec fn in_scope(scope: Option<&str>, item: ItemView) -> bool {
    match scope {
        None => true,
        Some(epic) => epic@.len() == 0 || item.id == epic@ || item.container_id == Some(epic@),
    }
}

/// Whether the Epic contains an Item that the view shows for its own sake.
pub open spec fn has_matching_child(
    v: StoreView,
    view: ListView,
    origin: ListOriginFilter,
    epic: ItemView,
) -> bool {
    exists|i: int|
        0 <= i < v.items.len() && (#[trigger] v.items[i]).container_id == Some(epic.id)
            && matches_view(v, view, v.items[i]) && matches_origin(origin, v.items[i])
}

/// Whether a listing shows the Item: for its own sake, or, in every view but
/// the default one, as an Epic around one that is.
pub open spec fn listed(v: StoreView, options: ListOptions<'_>) -> spec_fn(ItemView) -> bool {
    |item: ItemView|
        matches_origin(options.origin, item) && matches_class(options.class, item) && in_scope(
            options.scope,
            item,
        ) && (matches_view(v, options.view, item) || (options.view != ListView::Default
            && item.item_class == ItemClass::Epic && has_matching_child(
            v,
            options.view,
            options.origin,
            item,
        )))
}

fn shown_by_view(store: &Store, view: ListView, item: &Item) -> (r: bool)
    requires
        store.wf(),
    ensures
        r == matches_view(store@, view, item@),
{
    let ticket = item.item_class == ItemClass::Ticket;
    let status = item.status();
    match view {
        ListView::Default => status != ItemStatus::Done,
        ListView::Ready => {
            let accepted = match item.selection_state {
                Some(SelectionState::Accepted) => true,
                _ => false,
            };
            ticket && status == ItemStatus::Open && accepted && !waits_on_open(
                store,
                item.id.as_str(),
            ) && !waits_externally(store, item.id.as_str())
        },
        ListView::Blocked => {
            let selected = match item.selection_state {
                None | Some(SelectionState::Triage) => false,
                Some(_) => true,
            };
            ticket && status != ItemStatus::Done && selected && (waits_on_open(
                store,
                item.id.as_str(),
            ) || waits_externally(store, item.id.as_str()))
        },
        ListView::Active => status == ItemStatus::Active,
        ListView::Triage => {
            let triage = match item.selection_state {
                Some(SelectionState::Triage) => true,
                _ => false,
            };
            ticket && status == ItemStatus::Open && triage
        },
        ListView::Parked => {
            let parked = match item.selection_state {
                Some(SelectionState::Parked) => true,
                _ => false,
            };
            ticket && status == ItemStatus::Open && parked
        },
    }
}

fn origin_shown(filter: ListOriginFilter, item: &Item) -> (r: bool)
    ensures
        r == matches_origin(filter, item@),
{
    match filter {
        ListOriginFilter::Any => true,
        ListOriginFilter::Local => item.origin == Origin::Local,
        ListOriginFilter::Remote => item.origin == Origin::Backend,
    }
}

fn contains_match(store: &Store, view: ListView, origin: ListOriginFilter, epic: &Item) -> (r: bool)
    requires
        store.wf(),
    ensures
        r == has_matching_child(store@, view, origin, epic@),
{
    let mut i: usize = 0;
    while i < store.item_count()
        invariant
            0 <= i <= store@.items.len(),
            store.wf(),
            forall|k: int|
                0 <= k < i ==> !((#[trigger] store@.items[k]).container_id == Some(epic@.id)
                    && matches_view(store@, view, store@.items[k]) && matches_origin(
                    origin,
                    store@.items[k],
                )),
        decreases store@.items.len() - i,
    {
        let child = store.item(i);
        if text_is(&child.container_id, epic.id.as_str()) && shown_by_view(store, view, child)
            && origin_shown(origin, child) {
            proof {
                assert(store@.items[i as int].container_id == Some(epic@.id));
            }
            return true;
        }
        i = i + 1;
    }
    false
}

fn is_listed(store: &Store, options: ListOptions<'_>, item: &Item) -> (r: bool)
    requires
        store.wf(),
    ensures
        r == (listed(store@, options))(item@),
{
    let class_ok = match options.class {
        ListClassFilter::Any => true,
        ListClassFilter::Epic => item.item_class == ItemClass::Epic,
    };
    let scope_ok = match options.scope {
        None => true,
        Some(epic) => epic.is_empty() || same_text(item.id.as_str(), epic) || text_is(
            &item.container_id,
            epic,
        ),
    };
    if !origin_shown(options.origin, item) || !class_ok || !scope_ok {
        return false;
    }
    if shown_by_view(store, options.view, item) {
        return true;
    }
    options.view != ListView::Default && item.item_class == ItemClass::Epic && contains_match(
        store,
        options.view,
        options.origin,
        item,
    )
}

pub(crate) fn list_row(store: &Store, item: &Item) -> (r: ListRow)
    requires
        store.wf(),
    ensures
        r.shows(store@, item@),
{
    ListRow {
        id: item.id.clone(),
        display_id: item.display_id.clone(),
        item_class: item.item_class,
        ticket_kind: item.ticket_kind,
        priority: item.priority,
        title: item.title.clone(),
        status: item.status(),
        container_id: copy_text(&item.container_id),
        selection_state: item.selection_state,
        has_unresolved_blocker: waits_on_open(store, item.id.as_str()) || waits_externally(
            store,
            item.id.as_str(),
        ),
        has_pending_mutation: queued(store, item.id.as_str(), MutationState::Pending),
        has_failed_mutation: queued(store, item.id.as_str(), MutationState::Failed),
    }
}

/// The rows of the Items at the given places.
pub(crate) fn rows_at(store: &Store, at: &Vec<usize>) -> (r: Vec<ListRow>)
    requires
        store.wf(),
        in_table(at@, store@.items.len() as int),
    ensures
        r@.len() == at@.len(),
        forall|k: int|
            0 <= k < r@.len() ==> (#[trigger] r@[k]).shows(store@, picked(store@.items, at@)[k]),
{
    let mut out: Vec<ListRow> = Vec::new();
    let mut k: usize = 0;
    while k < at.len()
        invariant
            0 <= k <= at@.len(),
            store.wf(),
            in_table(at@, store@.items.len() as int),
            out@.len() == k,
            forall|j: int|
                0 <= j < k ==> (#[trigger] out@[j]).shows(store@, picked(store@.items, at@)[j]),
        decreases at@.len() - k,
    {
        out.push(list_row(store, store.item(at[k])));
        k = k + 1;
    }
    out
}

/// The rows of the List Tree, in creation order.
pub fn list_rows(store: &Store, options: ListOptions<'_>) -> (r: Vec<ListRow>)
    requires
        store.wf(),
    ensures
        ({
            let shown = store@.items.filter(listed(store@, options));
            &&& r@.len() == shown.len()
            &&& forall|k: int| 0 <= k < shown.len() ==> (#[trigger] r@[k]).shows(store@, shown[k])
        }),
{
    let holds = |item: &Item| -> (b: bool)
        requires
            store.wf(),
        ensures
            b == (listed(store@, options))(item@),
    {
        is_listed(store, options, item)
    };
    let at = item_places(store, holds, Ghost(listed(store@, options)));
    rows_at(store, &at)
}

// ---- Laws ---------------------------------------------------------------

/// No Item is both ready and blocked.
pub proof fn law_ready_and_blocked_are_apart(v: StoreView, item: ItemView)
    ensures
        !(matches_view(v, ListView::Ready, item) && matches_view(v, ListView::Blocked, item)),
{
}

/// Every ready, blocked, active, triage or parked Item is in the default view.
pub proof fn law_default_view_shows_every_match(v: StoreView, view: ListView, item: ItemView)
    requires
        matches_view(v, view, item),
    ensures
        matches_view(v, ListView::Default, item),
{
}

} // verus!
