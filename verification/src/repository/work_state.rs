//! Starting and stopping of work on an Item.
//!
//! Work State stays in the store: whether someone is working on an Item right
//! now is never told to a Backend and never recorded as a Mutation.

use vstd::prelude::*;

use crate::domain::{ItemClass, Lifecycle, SelectionState, WorkState};
use crate::keep::lemma_edit_item;
use crate::rows::ItemView;
use crate::tables::{lemma_has, Store, StoreView};

use super::status::{begin_transition, SetStatusError, StatusChangedItem};

verus! {

/// Why Work State was not written.
#[derive(Clone, Copy, Debug, PartialEq, Eq, Structural)]
pub enum SetWorkStateError {
    /// No Item has the internal ID.
    NotFound,
    /// Closed work is neither started nor stopped.
    LockedDone(ItemClass),
    /// A triage Ticket must be accepted before it is started.
    TriageNotStartable,
    /// A parked Ticket must be unparked before it is started.
    ParkedNotStartable,
}

impl From<SetWorkStateError> for SetStatusError {
    fn from(error: SetWorkStateError) -> (r: SetStatusError) {
        match error {
            SetWorkStateError::NotFound => SetStatusError::NotFound,
            SetWorkStateError::LockedDone(class) => SetStatusError::LockedDone(class),
            SetWorkStateError::TriageNotStartable => SetStatusError::TriageNotStartable,
            SetWorkStateError::ParkedNotStartable => SetStatusError::ParkedNotStartable,
        }
    }
}

impl vstd::std_specs::convert::FromSpecImpl<SetWorkStateError> for SetStatusError {
    open spec fn obeys_from_spec() -> bool {
        true
    }

    open spec fn from_spec(error: SetWorkStateError) -> SetStatusError {
        match error {
            SetWorkStateError::NotFound => SetStatusError::NotFound,
            SetWorkStateError::LockedDone(class) => SetStatusError::LockedDone(class),
            SetWorkStateError::TriageNotStartable => SetStatusError::TriageNotStartable,
            SetWorkStateError::ParkedNotStartable => SetStatusError::ParkedNotStartable,
        }
    }
}

/// Why an Item may not move to the Work State, if it may not.
pub open spec fn work_refusal(v: StoreView, id: Seq<char>, target: WorkState) -> Option<
    SetWorkStateError,
> {
    let item = v.item(id);
    if !v.has(id) {
        Some(SetWorkStateError::NotFound)
    } else if item.lifecycle == Lifecycle::Done {
        Some(SetWorkStateError::LockedDone(item.item_class))
    } else if target == WorkState::Active && item.selection_state == Some(SelectionState::Triage) {
        Some(SetWorkStateError::TriageNotStartable)
    } else if target == WorkState::Active && item.selection_state == Some(SelectionState::Parked) {
        Some(SetWorkStateError::ParkedNotStartable)
    } else {
        None
    }
}

/// The store with an Item in the Work State: an Item already in it is left
/// alone.
pub open spec fn worked(v: StoreView, id: Seq<char>, target: WorkState, now: Seq<char>) -> StoreView {
    if v.item(id).work_state == target {
        v
    } else {
        v.with_item(ItemView { work_state: target, updated_at: now, ..v.item(id) })
    }
}

/// Move a Ticket or Epic to a Work State.
///
/// Writes the Work State and the time of change alone, and appends nothing.
pub fn set_work_state(store: &mut Store, now: &str, id: &str, target: WorkState) -> (r: Result<
    StatusChangedItem,
    SetWorkStateError,
>)
    requires
        old(store).wf(),
    ensures
        final(store).wf(),
        match r {
            Ok(snapshot) => {
                &&& work_refusal(old(store)@, id@, target) is None
                &&& final(store)@ == worked(old(store)@, id@, target, now@)
                &&& snapshot.shows(old(store)@.item(id@))
            },
            Err(error) => work_refusal(old(store)@, id@, target) == Some(error) && final(store)@
                == old(store)@,
        },
{
    let (i, row) = match begin_transition(store, id) {
        Some(found) => found,
        None => {
            return Err(SetWorkStateError::NotFound);
        },
    };
    if row.lifecycle == Lifecycle::Done {
        return Err(SetWorkStateError::LockedDone(row.item_class));
    }
    if target == WorkState::Active {
        match row.selection_state {
            Some(SelectionState::Triage) => {
                return Err(SetWorkStateError::TriageNotStartable);
            },
            Some(SelectionState::Parked) => {
                return Err(SetWorkStateError::ParkedNotStartable);
            },
            Some(SelectionState::Accepted) | None => {},
        }
    }
    if row.work_state == target {
        return Ok(row.changed());
    }
    let mut item = store.item(i).copy();
    let ghost before = item@;
    item.work_state = target;
    item.updated_at = now.to_owned();
    proof {
        lemma_has(store@, id@);
        assert(before.admitted());
        assert(item@ =~= ItemView { work_state: target, updated_at: now@, ..before });
        lemma_edit_item(store@, i as int, item@);
    }
    store.put_item(i, item);
    Ok(row.changed())
}

// ---- Laws ---------------------------------------------------------------

/// Starting and stopping work appends no Mutation, on a Backend Item too.
pub proof fn law_work_state_queues_nothing(
    v: StoreView,
    id: Seq<char>,
    target: WorkState,
    now: Seq<char>,
)
    ensures
        worked(v, id, target, now).mutations == v.mutations,
        worked(v, id, target, now).mutation_seq == v.mutation_seq,
{
}

/// In every store an active Ticket is an accepted one.
pub proof fn law_active_tickets_are_accepted(v: StoreView, i: int)
    requires
        v.wf(),
        0 <= i < v.items.len(),
        v.items[i].item_class == ItemClass::Ticket,
        v.items[i].work_state == WorkState::Active,
    ensures
        v.items[i].selection_state == Some(SelectionState::Accepted),
{
    assert(v.items[i].admitted());
}

} // verus!
