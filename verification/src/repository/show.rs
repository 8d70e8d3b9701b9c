//! The full current state of one Item.

use vstd::prelude::*;

use crate::domain::{
    ItemClass, ItemStatus, Lifecycle, Priority, SelectionState, TicketKind,
};
use crate::rows::{copy_text, opt_text, text_is, Item, ItemView};
use crate::select::{in_table, picked};
use crate::tables::{keys, lemma_at, Store, StoreView};

use super::pick::{blocker_places, blocks_from_outside, item_places};
use super::resolve::find_named;

verus! {

/// What is shown of an Item next to another.
#[derive(Clone, Debug, PartialEq, Eq)]
pub struct ItemSummary {
    pub display_id: String,
    pub title: String,
    pub item_class: ItemClass,
    pub status: ItemStatus,
    pub priority: Option<Priority>,
}

impl ItemSummary {
    /// Whether the summary shows the Item.
    pub open spec fn shows(&self, item: ItemView) -> bool {
        &&& self.display_id@ == item.display_id
        &&& self.title@ == item.title
        &&& self.item_class == item.item_class
        &&& self.status == item.status()
        &&& self.priority == item.priority
    }
}

/// What is shown of an External Blocker.
#[derive(Clone, Debug, PartialEq, Eq)]
pub struct ExternalBlockerSummary {
    pub reason: String,
}

/// The full current state of one Ticket or Epic.
#[derive(Clone, Debug, PartialEq, Eq)]
pub struct ItemDetail {
    pub id: String,
    pub display_id: String,
    pub item_class: ItemClass,
    pub ticket_kind: Option<TicketKind>,
    pub priority: Option<Priority>,
    pub selection_state: Option<SelectionState>,
    pub title: String,
    pub body: String,
    pub closing_reason: Option<String>,
    pub status: ItemStatus,
    pub created_at: String,
    pub updated_at: String,
    pub parent: Option<ItemSummary>,
    pub children: Vec<ItemSummary>,
    pub blocked_by: Vec<ItemSummary>,
    pub blocking: Vec<ItemSummary>,
    pub external_blockers: Vec<ExternalBlockerSummary>,
}

/// Whether summaries show Items, one each, in order.
pub open spec fn summarised(list: Seq<ItemSummary>, items: Seq<ItemView>) -> bool {
    &&& list.len() == items.len()
    &&& forall|k: int| 0 <= k < list.len() ==> (#[trigger] list[k]).shows(items[k])
}

/// Whether the Epic contains the Item.
pub open spec fn child_of(id: Seq<char>) -> spec_fn(ItemView) -> bool {
    |item: ItemView| item.container_id == Some(id)
}

/// Whether the Item is not done and the given one waits on it.
pub open spec fn awaited_by(v: StoreView, id: Seq<char>) -> spec_fn(ItemView) -> bool {
    |item: ItemView| v.has_dependency(id, item.id) && item.lifecycle != Lifecycle::Done
}

/// Whether the Item is not done and waits on the given one.
pub open spec fn awaiting(v: StoreView, id: Seq<char>) -> spec_fn(ItemView) -> bool {
    |item: ItemView| v.has_dependency(item.id, id) && item.lifecycle != Lifecycle::Done
}

impl ItemDetail {
    /// Whether the detail shows the Item's own fields.
    pub open spec fn shows(&self, item: ItemView) -> bool {
        &&& self.id@ == item.id
        &&& self.display_id@ == item.display_id
        &&& self.item_class == item.item_class
        &&& self.ticket_kind == item.ticket_kind
        &&& self.priority == item.priority
        &&& self.selection_state == item.selection_state
        &&& self.title@ == item.title
        &&& self.body@ == item.body
        &&& opt_text(self.closing_reason) == item.closing_reason
        &&& self.status == item.status()
        &&& self.created_at@ == item.created_at
        &&& self.updated_at@ == item.updated_at
    }

    /// Whether the detail shows what surrounds the Item: the containing Epic,
    /// an Epic's children, what it waits on, what waits on it, and what it
    /// waits on outside the store.
    pub open spec fn shows_around(&self, v: StoreView, item: ItemView) -> bool {
        let outside = v.external_blockers.filter(blocks_from_outside(item.id));
        &&& match (self.parent, item.container_id) {
            (Some(parent), Some(id)) => parent.shows(v.item(id)),
            (None, None) => true,
            _ => false,
        }
        &&& summarised(
            self.children@,
            if item.item_class == ItemClass::Epic {
                v.items.filter(child_of(item.id))
            } else {
                Seq::empty()
            },
        )
        &&& summarised(self.blocked_by@, v.items.filter(awaited_by(v, item.id)))
        &&& summarised(self.blocking@, v.items.filter(awaiting(v, item.id)))
        &&& self.external_blockers@.len() == outside.len()
        &&& forall|k: int|
            0 <= k < outside.len() ==> (#[trigger] self.external_blockers@[k]).reason@
                == outside[k].reason
    }
}

fn item_summary(item: &Item) -> (r: ItemSummary)
    ensures
        r.shows(item@),
{
    ItemSummary {
        display_id: item.display_id.clone(),
        title: item.title.clone(),
        item_class: item.item_class,
        status: item.status(),
        priority: item.priority,
    }
}

fn summaries(store: &Store, at: &Vec<usize>) -> (r: Vec<ItemSummary>)
    requires
        in_table(at@, store@.items.len() as int),
    ensures
        summarised(r@, picked(store@.items, at@)),
{
    let mut out: Vec<ItemSummary> = Vec::new();
    let mut k: usize = 0;
    while k < at.len()
        invariant
            0 <= k <= at@.len(),
            in_table(at@, store@.items.len() as int),
            out@.len() == k,
            forall|j: int|
                0 <= j < k ==> (#[trigger] out@[j]).shows(picked(store@.items, at@)[j]),
        decreases at@.len() - k,
    {
        out.push(item_summary(store.item(at[k])));
        k = k + 1;
    }
    out
}

fn read_children(store: &Store, id: &str) -> (r: Vec<ItemSummary>)
    ensures
        summarised(r@, store@.items.filter(child_of(id@))),
{
    let holds = |item: &Item| -> (b: bool)
        ensures
            b == (child_of(id@))(item@),
    {
        text_is(&item.container_id, id)
    };
    let at = item_places(store, holds, Ghost(child_of(id@)));
    summaries(store, &at)
}

fn read_blocked_by(store: &Store, id: &str) -> (r: Vec<ItemSummary>)
    ensures
        summarised(r@, store@.items.filter(awaited_by(store@, id@))),
{
    let holds = |item: &Item| -> (b: bool)
        ensures
            b == (awaited_by(store@, id@))(item@),
    {
        item.lifecycle != Lifecycle::Done && store.find_dependency(
            id,
            item.id.as_str(),
        ).is_some()
    };
    let at = item_places(store, holds, Ghost(awaited_by(store@, id@)));
    summaries(store, &at)
}

fn read_blocking(store: &Store, id: &str) -> (r: Vec<ItemSummary>)
    ensures
        summarised(r@, store@.items.filter(awaiting(store@, id@))),
{
    let holds = |item: &Item| -> (b: bool)
        ensures
            b == (awaiting(store@, id@))(item@),
    {
        item.lifecycle != Lifecycle::Done && store.find_dependency(
            item.id.as_str(),
            id,
        ).is_some()
    };
    let at = item_places(store, holds, Ghost(awaiting(store@, id@)));
    summaries(store, &at)
}

fn read_external_blockers(store: &Store, id: &str) -> (r: Vec<ExternalBlockerSummary>)
    ensures
        ({
            let outside = store@.external_blockers.filter(blocks_from_outside(id@));
            &&& r@.len() == outside.len()
            &&& forall|k: int|
                0 <= k < outside.len() ==> (#[trigger] r@[k]).reason@ == outside[k].reason
        }),
{
    let at = blocker_places(store, id);
    let ghost rows = picked(store@.external_blockers, at@);
    let mut out: Vec<ExternalBlockerSummary> = Vec::new();
    let mut k: usize = 0;
    while k < at.len()
        invariant
            0 <= k <= at@.len(),
            in_table(at@, store@.external_blockers.len() as int),
            rows == picked(store@.external_blockers, at@),
            out@.len() == k,
            forall|j: int| 0 <= j < k ==> (#[trigger] out@[j]).reason@ == rows[j].reason,
        decreases at@.len() - k,
    {
        let b = store.external_blocker(at[k]);
        proof {
            assert(rows[k as int] == b@);
        }
        out.push(ExternalBlockerSummary { reason: b.reason.clone() });
        k = k + 1;
    }
    out
}

/// Read one Item's full current state. Nothing where the Display ID or Alias
/// does not resolve.
pub fn show_item(store: &Store, display_arg: &str) -> (r: Option<ItemDetail>)
    requires
        store.wf(),
    ensures
        match r {
            Some(detail) => {
                let item = store@.item(store@.resolved(display_arg@)->0);
                &&& store@.resolved(display_arg@) is Some
                &&& detail.shows(item)
                &&& detail.shows_around(store@, item)
            },
            None => store@.resolved(display_arg@) is None,
        },
{
    let i: usize = match find_named(store, display_arg) {
        Some(i) => i,
        None => {
            return None;
        },
    };
    let item = store.item(i);
    let parent = match &item.container_id {
        None => None,
        Some(container) => {
            proof {
                let all = keys(store@.items);
                assert(all.contains((container@, ItemClass::Epic)));
                let k = choose|k: int|
                    0 <= k < all.len() && all[k] == (container@, ItemClass::Epic);
                lemma_at(store@, k);
            }
            match store.find(container.as_str()) {
                Some(p) => Some(item_summary(store.item(p))),
                None => None,
            }
        },
    };
    let children = if item.item_class == ItemClass::Epic {
        read_children(store, item.id.as_str())
    } else {
        Vec::new()
    };
    Some(
        ItemDetail {
            id: item.id.clone(),
            display_id: item.display_id.clone(),
            item_class: item.item_class,
            ticket_kind: item.ticket_kind,
            priority: item.priority,
            selection_state: item.selection_state,
            title: item.title.clone(),
            body: item.body.clone(),
            closing_reason: copy_text(&item.closing_reason),
            status: item.status(),
            created_at: item.created_at.clone(),
            updated_at: item.updated_at.clone(),
            parent,
            children,
            blocked_by: read_blocked_by(store, item.id.as_str()),
            blocking: read_blocking(store, item.id.as_str()),
            external_blockers: read_external_blockers(store, item.id.as_str()),
        },
    )
}

} // verus!
