//! Search of titles.

use vstd::prelude::*;

use crate::rows::{Item, ItemView};
use crate::tables::Store;
use crate::text::{occurs, occurs_in};

use super::list::{rows_at, ListRow};
use super::pick::item_places;

verus! {

/// Whether the Item's title contains the query, ASCII case ignored.
pub open spec fn titled(query: Seq<char>) -> spec_fn(ItemView) -> bool {
    |item: ItemView| occurs_in(item.title, query)
}

/// The Items, of every status, whose title contains the query as a literal
/// text, ASCII case ignored, in creation order.
pub fn search_rows(store: &Store, query: &str) -> (r: Vec<ListRow>)
    requires
        store.wf(),
    ensures
        ({
            let found = store@.items.filter(titled(query@));
            &&& r@.len() == found.len()
            &&& forall|k: int| 0 <= k < found.len() ==> (#[trigger] r@[k]).shows(store@, found[k])
        }),
{
    let holds = |item: &Item| -> (b: bool)
        ensures
            b == (titled(query@))(item@),
    {
        occurs(item.title.as_str(), query)
    };
    let at = item_places(store, holds, Ghost(titled(query@)));
    rows_at(store, &at)
}

} // verus!
