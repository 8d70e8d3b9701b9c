//! Resolution of Display IDs and Aliases, and the decoders of text columns.

use vstd::prelude::*;

use crate::domain::{ItemClass, ItemStatus, Origin, Priority, TicketKind};
use crate::tables::{lemma_at, lemma_has, Store, StoreView};
use crate::text::{folded, same_folded};

verus! {

/// A Display ID or Alias resolved to an internal ID and class.
#[derive(Clone, Debug, PartialEq, Eq)]
pub struct ResolvedItemRef {
    pub id: String,
    pub item_class: ItemClass,
}

/// A resolved Item with its current Display ID, for a command that echoes the
/// current Display ID rather than what was typed.
#[derive(Clone, Debug, PartialEq, Eq)]
pub struct ResolvedItemRefWithDisplay {
    pub id: String,
    pub display_id: String,
    pub item_class: ItemClass,
}

/// Why a Display ID or Alias that must name an Epic does not.
#[derive(Clone, Copy, Debug, PartialEq, Eq, Structural)]
pub enum ResolveEpicError {
    NotFound,
    NotAnEpic,
}

/// No text names two Items.
pub proof fn lemma_names_one(v: StoreView, arg: Seq<char>, a: Seq<char>, b: Seq<char>)
    requires
        v.wf(),
        v.names(arg, a),
        v.names(arg, b),
    ensures
        a == b,
{
    if exists|i: int|
        0 <= i < v.items.len() && (#[trigger] v.items[i]).id == a && folded(v.items[i].display_id)
            == folded(arg) {
        let i = choose|i: int|
            0 <= i < v.items.len() && (#[trigger] v.items[i]).id == a && folded(
                v.items[i].display_id,
            ) == folded(arg);
        if exists|j: int|
            0 <= j < v.items.len() && (#[trigger] v.items[j]).id == b && folded(
                v.items[j].display_id,
            ) == folded(arg) {
            let j = choose|j: int|
                0 <= j < v.items.len() && (#[trigger] v.items[j]).id == b && folded(
                    v.items[j].display_id,
                ) == folded(arg);
            assert(i == j);
        } else {
            let j = choose|j: int|
                0 <= j < v.aliases.len() && (#[trigger] v.aliases[j]).item_id == b && folded(
                    v.aliases[j].value,
                ) == folded(arg);
            assert(folded(v.items[i].display_id) != folded(v.aliases[j].value));
        }
    } else {
        let i = choose|i: int|
            0 <= i < v.aliases.len() && (#[trigger] v.aliases[i]).item_id == a && folded(
                v.aliases[i].value,
            ) == folded(arg);
        if exists|j: int|
            0 <= j < v.items.len() && (#[trigger] v.items[j]).id == b && folded(
                v.items[j].display_id,
            ) == folded(arg) {
            let j = choose|j: int|
                0 <= j < v.items.len() && (#[trigger] v.items[j]).id == b && folded(
                    v.items[j].display_id,
                ) == folded(arg);
            assert(folded(v.items[j].display_id) != folded(v.aliases[i].value));
        } else {
            let j = choose|j: int|
                0 <= j < v.aliases.len() && (#[trigger] v.aliases[j]).item_id == b && folded(
                    v.aliases[j].value,
                ) == folded(arg);
            assert(i == j);
        }
    }
}

/// What a text names is what it resolves to.
pub proof fn lemma_resolved(v: StoreView, arg: Seq<char>, id: Seq<char>)
    requires
        v.wf(),
        v.names(arg, id),
    ensures
        v.resolved(arg) == Some(id),
{
    let found = choose|other: Seq<char>| v.names(arg, other);
    lemma_names_one(v, arg, id, found);
}

/// The place of the Item that a Display ID or Alias names, if any.
pub(crate) fn find_named(store: &Store, display_arg: &str) -> (r: Option<usize>)
    requires
        store.wf(),
    ensures
        match r {
            Some(i) => {
                &&& i < store@.items.len()
                &&& store@.resolved(display_arg@) == Some(store@.items[i as int].id)
                &&& store@.has(store@.items[i as int].id)
                &&& store@.at(store@.items[i as int].id) == i
            },
            None => store@.resolved(display_arg@) is None,
        },
{
    let mut i: usize = 0;
    while i < store.item_count()
        invariant
            0 <= i <= store@.items.len(),
            store.wf(),
            forall|k: int|
                0 <= k < i ==> folded((#[trigger] store@.items[k]).display_id) != folded(
                    display_arg@,
                ),
        decreases store@.items.len() - i,
    {
        if same_folded(store.item(i).display_id.as_str(), display_arg) {
            proof {
                assert(store@.names(display_arg@, store@.items[i as int].id));
                lemma_resolved(store@, display_arg@, store@.items[i as int].id);
                lemma_at(store@, i as int);
            }
            return Some(i);
        }
        i = i + 1;
    }
    let mut j: usize = 0;
    while j < store.alias_count()
        invariant
            0 <= j <= store@.aliases.len(),
            store.wf(),
            forall|k: int|
                0 <= k < j ==> folded((#[trigger] store@.aliases[k]).value) != folded(display_arg@),
        decreases store@.aliases.len() - j,
    {
        let alias = store.alias(j);
        if same_folded(alias.value.as_str(), display_arg) {
            proof {
                assert(store@.aliases[j as int].item_id == alias.item_id@);
                assert(store@.names(display_arg@, alias.item_id@));
                lemma_resolved(store@, display_arg@, alias.item_id@);
            }
            return store.find(alias.item_id.as_str());
        }
        j = j + 1;
    }
    None
}

/// Resolve a Display ID or Alias, ASCII case ignored, to its internal ID.
pub fn resolve_item_ref(store: &Store, display_arg: &str) -> (r: Option<ResolvedItemRef>)
    requires
        store.wf(),
    ensures
        match r {
            Some(found) => {
                &&& store@.resolved(display_arg@) == Some(found.id@)
                &&& found.item_class == store@.item(found.id@).item_class
            },
            None => store@.resolved(display_arg@) is None,
        },
{
    match find_named(store, display_arg) {
        Some(i) => {
            let item = store.item(i);
            Some(ResolvedItemRef { id: item.id.clone(), item_class: item.item_class })
        },
        None => None,
    }
}

/// Resolve a Display ID or Alias to its internal ID and current Display ID.
pub fn resolve_item_ref_with_display(store: &Store, display_arg: &str) -> (r: Option<
    ResolvedItemRefWithDisplay,
>)
    requires
        store.wf(),
    ensures
        match r {
            Some(found) => {
                &&& store@.resolved(display_arg@) == Some(found.id@)
                &&& found.display_id@ == store@.item(found.id@).display_id
                &&& found.item_class == store@.item(found.id@).item_class
            },
            None => store@.resolved(display_arg@) is None,
        },
{
    match find_named(store, display_arg) {
        Some(i) => {
            let item = store.item(i);
            Some(
                ResolvedItemRefWithDisplay {
                    id: item.id.clone(),
                    display_id: item.display_id.clone(),
                    item_class: item.item_class,
                },
            )
        },
        None => None,
    }
}

/// Resolve a Display ID or Alias to an Epic.
pub fn resolve_as_epic(store: &Store, display_arg: &str) -> (r: Result<
    ResolvedItemRef,
    ResolveEpicError,
>)
    requires
        store.wf(),
    ensures
        match (store@.resolved(display_arg@), r) {
            (Some(id), Ok(found)) => found.id@ == id && found.item_class == ItemClass::Epic
                && store@.item(id).item_class == ItemClass::Epic,
            (Some(id), Err(error)) => error == ResolveEpicError::NotAnEpic && store@.item(
                id,
            ).item_class != ItemClass::Epic,
            (None, Err(error)) => error == ResolveEpicError::NotFound,
            (None, Ok(_)) => false,
        },
{
    match resolve_item_ref(store, display_arg) {
        None => Err(ResolveEpicError::NotFound),
        Some(found) => {
            if found.item_class == ItemClass::Epic {
                Ok(found)
            } else {
                Err(ResolveEpicError::NotAnEpic)
            }
        },
    }
}

/// Like [`resolve_as_epic`] but with the current Display ID attached.
pub fn resolve_as_epic_with_display(store: &Store, display_arg: &str) -> (r: Result<
    ResolvedItemRefWithDisplay,
    ResolveEpicError,
>)
    requires
        store.wf(),
    ensures
        match (store@.resolved(display_arg@), r) {
            (Some(id), Ok(found)) => found.id@ == id && found.item_class == ItemClass::Epic
                && store@.item(id).item_class == ItemClass::Epic && found.display_id@
                == store@.item(id).display_id,
            (Some(id), Err(error)) => error == ResolveEpicError::NotAnEpic && store@.item(
                id,
            ).item_class != ItemClass::Epic,
            (None, Err(error)) => error == ResolveEpicError::NotFound,
            (None, Ok(_)) => false,
        },
{
    match resolve_item_ref_with_display(store, display_arg) {
        None => Err(ResolveEpicError::NotFound),
        Some(found) => {
            if found.item_class == ItemClass::Epic {
                Ok(found)
            } else {
                Err(ResolveEpicError::NotAnEpic)
            }
        },
    }
}

/// Resolution does not depend on the case of ASCII letters.
pub proof fn law_resolution_ignores_case(v: StoreView, a: Seq<char>, b: Seq<char>)
    requires
        v.wf(),
        folded(a) == folded(b),
    ensures
        v.resolved(a) == v.resolved(b),
{
    assert forall|id: Seq<char>| v.names(a, id) == v.names(b, id) by {}
    if v.resolved(a) is Some {
        let id = choose|id: Seq<char>| v.names(a, id);
        assert(v.names(b, id));
        lemma_resolved(v, a, id);
        lemma_resolved(v, b, id);
    } else if v.resolved(b) is Some {
        let id = choose|id: Seq<char>| v.names(b, id);
        assert(v.names(a, id));
    }
}

/// Every Item resolves from its own Display ID.
pub proof fn law_display_ids_resolve(v: StoreView, id: Seq<char>)
    requires
        v.wf(),
        v.has(id),
    ensures
        v.resolved(v.item(id).display_id) == Some(id),
{
    lemma_has(v, id);
    let i = v.at(id);
    assert(v.items[i].id == id);
    assert(v.names(v.item(id).display_id, id));
    lemma_resolved(v, v.item(id).display_id, id);
}

// ---- Decoders of text columns -------------------------------------------
//
// The columns hold known spellings alone, so that an unknown one is excluded
// rather than answered with a value that would mislead the caller.

/// The class that a column's text stands for.
pub fn item_class_from_text(text: &str) -> (r: ItemClass)
    requires
        exists|value: ItemClass| #[trigger] value.name() == text@,
    ensures
        r.name() == text@,
{
    match ItemClass::parse(text) {
        Some(value) => value,
        None => ItemClass::Ticket,
    }
}

/// The kind that a column's text stands for.
pub fn ticket_kind_from_text(text: &str) -> (r: TicketKind)
    requires
        exists|value: TicketKind| #[trigger] value.name() == text@,
    ensures
        r.name() == text@,
{
    match TicketKind::parse(text) {
        Some(value) => value,
        None => TicketKind::Task,
    }
}

/// The Priority that a column's text stands for.
pub fn priority_from_text(text: &str) -> (r: Priority)
    requires
        exists|value: Priority| #[trigger] value.name() == text@,
    ensures
        r.name() == text@,
{
    match Priority::parse(text) {
        Some(value) => value,
        None => Priority::P0,
    }
}

/// The status that a column's text stands for.
pub fn status_from_text(text: &str) -> (r: ItemStatus)
    requires
        exists|value: ItemStatus| #[trigger] value.name() == text@,
    ensures
        r.name() == text@,
{
    match ItemStatus::parse(text) {
        Some(value) => value,
        None => ItemStatus::Open,
    }
}

/// The Origin that a column's text stands for.
pub fn origin_from_text(text: &str) -> (r: Origin)
    requires
        exists|value: Origin| #[trigger] value.name() == text@,
    ensures
        r.name() == text@,
{
    match Origin::parse(text) {
        Some(value) => value,
        None => Origin::Local,
    }
}

} // verus!
