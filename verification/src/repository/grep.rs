//! The scan that content search matches against.

use vstd::prelude::*;

use crate::domain::{ItemClass, ItemStatus, Priority, TicketKind};
use crate::rows::ItemView;
use crate::tables::Store;

verus! {

/// One Item with the text that a content search matches.
#[derive(Clone, Debug, PartialEq, Eq)]
pub struct GrepItem {
    pub display_id: String,
    pub item_class: ItemClass,
    pub ticket_kind: Option<TicketKind>,
    pub priority: Option<Priority>,
    pub title: String,
    pub body: String,
    pub status: ItemStatus,
    pub created_at: String,
    pub updated_at: String,
}

impl GrepItem {
    /// Whether the scan shows the Item.
    pub open spec fn shows(&self, item: ItemView) -> bool {
        &&& self.display_id@ == item.display_id
        &&& self.item_class == item.item_class
        &&& self.ticket_kind == item.ticket_kind
        &&& self.priority == item.priority
        &&& self.title@ == item.title
        &&& self.body@ == item.body
        &&& self.status == item.status()
        &&& self.created_at@ == item.created_at
        &&& self.updated_at@ == item.updated_at
    }
}

/// The Item at a place of the scan: every Item, of every status, in creation
/// order; nothing behind the last.
pub fn scan(store: &Store, i: usize) -> (r: Option<GrepItem>)
    ensures
        match r {
            Some(found) => i < store@.items.len() && found.shows(store@.items[i as int]),
            None => i >= store@.items.len(),
        },
{
    if i >= store.item_count() {
        return None;
    }
    let item = store.item(i);
    Some(
        GrepItem {
            display_id: item.display_id.clone(),
            item_class: item.item_class,
            ticket_kind: item.ticket_kind,
            priority: item.priority,
            title: item.title.clone(),
            body: item.body.clone(),
            status: item.status(),
            created_at: item.created_at.clone(),
            updated_at: item.updated_at.clone(),
        },
    )
}

} // verus!
