//! The operations on Items, each over the whole store.

pub mod create;
pub mod dependency;
pub mod detach;
pub mod grep;
pub mod list;
pub mod next;
pub mod open;
pub mod pick;
pub mod plan;
pub mod resolve;
pub mod search;
pub mod selection;
pub mod show;
pub mod status;
pub mod update;
pub mod work_state;

pub use resolve::{
    item_class_from_text, origin_from_text, priority_from_text, resolve_as_epic,
    resolve_as_epic_with_display, resolve_item_ref, resolve_item_ref_with_display,
    status_from_text, ticket_kind_from_text, ResolveEpicError, ResolvedItemRef,
    ResolvedItemRefWithDisplay,
};
pub use open::{open_existing, OpenError};
