//! Acceptance of a Ticket out of triage.
//!
//! Selection State stays in the store: it is never told to a Backend and never
//! recorded as a Mutation.

use vstd::prelude::*;

use crate::domain::{ItemClass, Priority, SelectionState};
use crate::keep::lemma_edit_item;
use crate::rows::ItemView;
use crate::tables::{lemma_has, Store, StoreView};

verus! {

/// What became of an accepted Ticket.
#[derive(Clone, Debug, PartialEq, Eq)]
pub enum AcceptOutcome {
    /// A triage Ticket moved to accepted at the supplied Priority.
    Accepted { display_id: String, title: String, priority: Priority },
    /// The Ticket was accepted already; nothing was written.
    AlreadyAccepted { display_id: String },
}

/// Why a Ticket was not accepted.
#[derive(Clone, Copy, Debug, PartialEq, Eq, Structural)]
pub enum AcceptError {
    NotFound,
    /// Selection State applies to Tickets only.
    NotATicket,
    /// Acceptance must rank the work.
    PriorityRequired,
    /// An accepted Ticket is not ranked anew by accepting it.
    PriorityOnAccepted,
    /// A parked Ticket is unparked rather than accepted.
    Parked,
}

/// Why a Ticket may not be accepted, if it may not.
pub open spec fn accept_refusal(v: StoreView, id: Seq<char>, priority: Option<Priority>) -> Option<
    AcceptError,
> {
    if !v.has(id) {
        Some(AcceptError::NotFound)
    } else {
        match v.item(id).selection_state {
            None => Some(AcceptError::NotATicket),
            Some(SelectionState::Parked) => Some(AcceptError::Parked),
            Some(SelectionState::Triage) => if priority is None {
                Some(AcceptError::PriorityRequired)
            } else {
                None
            },
            Some(SelectionState::Accepted) => if priority is Some {
                Some(AcceptError::PriorityOnAccepted)
            } else {
                None
            },
        }
    }
}

/// The store with a Ticket accepted: one accepted already is left alone.
pub open spec fn accepted(
    v: StoreView,
    id: Seq<char>,
    priority: Option<Priority>,
    now: Seq<char>,
) -> StoreView {
    if v.item(id).selection_state == Some(SelectionState::Triage) {
        v.with_item(
            ItemView {
                selection_state: Some(SelectionState::Accepted),
                priority,
                updated_at: now,
                ..v.item(id)
            },
        )
    } else {
        v
    }
}

/// Accept a Ticket: move it from triage to accepted with a Priority, or
/// confirm an accepted one.
pub fn accept_ticket(store: &mut Store, now: &str, id: &str, priority: Option<Priority>) -> (r:
    Result<AcceptOutcome, AcceptError>)
    requires
        old(store).wf(),
    ensures
        final(store).wf(),
        match r {
            Ok(outcome) => {
                let item = old(store)@.item(id@);
                &&& accept_refusal(old(store)@, id@, priority) is None
                &&& final(store)@ == accepted(old(store)@, id@, priority, now@)
                &&& match outcome {
                    AcceptOutcome::Accepted { display_id, title, priority: p } => {
                        &&& item.selection_state == Some(SelectionState::Triage)
                        &&& display_id@ == item.display_id
                        &&& title@ == item.title
                        &&& priority == Some(p)
                    },
                    AcceptOutcome::AlreadyAccepted { display_id } => {
                        &&& item.selection_state == Some(SelectionState::Accepted)
                        &&& display_id@ == item.display_id
                    },
                }
            },
            Err(error) => accept_refusal(old(store)@, id@, priority) == Some(error) && final(
                store)@ == old(store)@,
        },
{
    let i: usize = match store.find(id) {
        Some(i) => i,
        None => {
            return Err(AcceptError::NotFound);
        },
    };
    let mut item = store.item(i).copy();
    let ghost before = item@;
    proof {
        lemma_has(store@, id@);
        assert(before.admitted());
    }
    if item.item_class == ItemClass::Epic {
        return Err(AcceptError::NotATicket);
    }
    match item.selection_state {
        Some(SelectionState::Triage) => {
            let rank = match priority {
                Some(rank) => rank,
                None => {
                    return Err(AcceptError::PriorityRequired);
                },
            };
            let outcome = AcceptOutcome::Accepted {
                display_id: item.display_id.clone(),
                title: item.title.clone(),
                priority: rank,
            };
            item.selection_state = Some(SelectionState::Accepted);
            item.priority = Some(rank);
            item.updated_at = now.to_owned();
            proof {
                assert(item@ =~= ItemView {
                    selection_state: Some(SelectionState::Accepted),
                    priority,
                    updated_at: now@,
                    ..before
                });
                lemma_edit_item(store@, i as int, item@);
            }
            store.put_item(i, item);
            Ok(outcome)
        },
        Some(SelectionState::Accepted) => {
            if priority.is_some() {
                return Err(AcceptError::PriorityOnAccepted);
            }
            Ok(AcceptOutcome::AlreadyAccepted { display_id: item.display_id })
        },
        Some(SelectionState::Parked) => Err(AcceptError::Parked),
        None => Err(AcceptError::NotATicket),
    }
}

/// Acceptance appends no Mutation and leaves status, Dependencies and External
/// Blockers alone.
pub proof fn law_acceptance_stays_local(
    v: StoreView,
    id: Seq<char>,
    priority: Option<Priority>,
    now: Seq<char>,
)
    requires
        v.wf(),
        accept_refusal(v, id, priority) is None,
    ensures
        ({
            let after = accepted(v, id, priority, now);
            &&& after.mutations == v.mutations
            &&& after.dependencies == v.dependencies
            &&& after.external_blockers == v.external_blockers
            &&& after.item(id).status() == v.item(id).status()
        }),
{
    lemma_has(v, id);
    let after = accepted(v, id, priority, now);
    assert(crate::tables::ids(after.items) =~= crate::tables::ids(v.items));
    crate::tables::lemma_at(after, v.at(id));
}

} // verus!
