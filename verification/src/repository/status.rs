//! Closing of an Item.
//!
//! Closing is the only Lifecycle transition: it takes no target, so that a
//! reopen is not constructible. It clears Work State along with it, which
//! keeps closed work from being in progress.

use vstd::prelude::*;

use crate::domain::{ItemClass, ItemStatus, Lifecycle, MutationType, SelectionState, WorkState};
use crate::keep::lemma_edit_item;
use crate::mutations::{
    append, appended, binding, resolve_backend_binding, AppendError, AppendRequest, AppendView,
    BackendBindingError, BindingFault,
};
use crate::payload::{json_object, status_pairs, MutationPayload, StatusChange};
use crate::rows::{opt_str, own_text, ItemView};
use crate::tables::{lemma_has, Fault, Store, StoreView};

verus! {

/// What a status write hands back.
#[derive(Clone, Debug, PartialEq, Eq)]
pub struct StatusChangedItem {
    pub display_id: String,
    pub title: String,
    pub item_class: ItemClass,
}

impl StatusChangedItem {
    /// Whether the snapshot shows the Item.
    pub open spec fn shows(&self, item: ItemView) -> bool {
        &&& self.display_id@ == item.display_id
        &&& self.title@ == item.title
        &&& self.item_class == item.item_class
    }
}

/// Why a status write did not happen. Success is a real transition or a no-op
/// for an already-current state.
#[derive(Debug)]
pub enum SetStatusError {
    /// No Item has the internal ID.
    NotFound,
    /// Work State is not writable on closed work.
    LockedDone(ItemClass),
    /// A Closing Reason is set once, at the transition.
    AlreadyClosed(ItemClass),
    /// A triage Ticket must be accepted before it is started.
    TriageNotStartable,
    /// A parked Ticket must be unparked before it is started.
    ParkedNotStartable,
    /// The store does not admit the Item so changed.
    Sqlite(Fault),
    BackendBinding(BackendBindingError),
    Mutation(AppendError),
}

/// The model of [`SetStatusError`].
pub enum StatusFault {
    NotFound,
    LockedDone(ItemClass),
    AlreadyClosed(ItemClass),
    TriageNotStartable,
    ParkedNotStartable,
    Sqlite(Fault),
    BackendBinding(BindingFault),
    Mutation(AppendError),
}

impl View for SetStatusError {
    type V = StatusFault;

    open spec fn view(&self) -> StatusFault {
        match self {
            SetStatusError::NotFound => StatusFault::NotFound,
            SetStatusError::LockedDone(class) => StatusFault::LockedDone(*class),
            SetStatusError::AlreadyClosed(class) => StatusFault::AlreadyClosed(*class),
            SetStatusError::TriageNotStartable => StatusFault::TriageNotStartable,
            SetStatusError::ParkedNotStartable => StatusFault::ParkedNotStartable,
            SetStatusError::Sqlite(fault) => StatusFault::Sqlite(*fault),
            SetStatusError::BackendBinding(error) => StatusFault::BackendBinding(error@),
            SetStatusError::Mutation(error) => StatusFault::Mutation(*error),
        }
    }
}

/// The current state that both status writers decide from.
pub struct TransitionRow {
    pub lifecycle: Lifecycle,
    pub work_state: WorkState,
    pub item_class: ItemClass,
    pub display_id: String,
    pub title: String,
    pub selection_state: Option<SelectionState>,
}

impl TransitionRow {
    /// The snapshot that a write or a no-op returns: an idempotent call
    /// reports what a transition would have.
    pub fn changed(self) -> (r: StatusChangedItem)
        ensures
            r.display_id@ == self.display_id@,
            r.title@ == self.title@,
            r.item_class == self.item_class,
    {
        StatusChangedItem {
            display_id: self.display_id,
            title: self.title,
            item_class: self.item_class,
        }
    }
}

/// Read the row that both status writers decide from, and its place.
///
/// Shared so that their reads cannot drift; takes no decision.
pub(crate) fn begin_transition(store: &Store, id: &str) -> (r: Option<(usize, TransitionRow)>)
    requires
        store.wf(),
    ensures
        match r {
            None => !store@.has(id@),
            Some((i, row)) => {
                let item = store@.item(id@);
                &&& store@.has(id@)
                &&& i == store@.at(id@)
                &&& i < store@.items.len()
                &&& row.lifecycle == item.lifecycle
                &&& row.work_state == item.work_state
                &&& row.item_class == item.item_class
                &&& row.display_id@ == item.display_id
                &&& row.title@ == item.title
                &&& row.selection_state == item.selection_state
            },
        },
{
    match store.find(id) {
        None => None,
        Some(i) => {
            let item = store.item(i);
            Some(
                (
                    i,
                    TransitionRow {
                        lifecycle: item.lifecycle,
                        work_state: item.work_state,
                        item_class: item.item_class,
                        display_id: item.display_id.clone(),
                        title: item.title.clone(),
                        selection_state: item.selection_state,
                    },
                ),
            )
        },
    }
}

/// The Item closed.
pub open spec fn closed_item(item: ItemView, reason: Option<Seq<char>>, now: Seq<char>) -> ItemView {
    ItemView {
        lifecycle: Lifecycle::Done,
        work_state: WorkState::Idle,
        closing_reason: reason,
        updated_at: now,
        ..item
    }
}

/// What the Backend is told of a closed Item.
pub open spec fn closing_request(item: ItemView, now: Seq<char>) -> AppendView {
    AppendView {
        mutation_type: MutationType::SetItemStatus,
        item_id: item.id,
        item_class: item.item_class,
        payload: json_object(status_pairs(ItemStatus::Done)),
        operation: None,
        now,
    }
}

/// The store with an Item closed, or why it is not.
pub open spec fn closed(
    v: StoreView,
    id: Seq<char>,
    reason: Option<Seq<char>>,
    now: Seq<char>,
) -> Result<StoreView, StatusFault> {
    let item = v.item(id);
    if !v.has(id) {
        Err(StatusFault::NotFound)
    } else if item.lifecycle == Lifecycle::Done {
        if reason is Some {
            Err(StatusFault::AlreadyClosed(item.item_class))
        } else {
            Ok(v)
        }
    } else if reason == Some(Seq::<char>::empty()) {
        Err(StatusFault::Sqlite(Fault::Check))
    } else {
        let after = v.with_item(closed_item(item, reason, now));
        match binding(v, id) {
            Err(fault) => Err(StatusFault::BackendBinding(fault)),
            Ok(bound) => if bound.bound() {
                match appended(after, closing_request(item, now)) {
                    Ok(queued) => Ok(queued),
                    Err(error) => Err(StatusFault::Mutation(error)),
                }
            } else {
                Ok(after)
            },
        }
    }
}

/// Close a Ticket or Epic, optionally with a Closing Reason.
///
/// Work State is cleared alongside. An already closed Item is a no-op unless a
/// Closing Reason is supplied, which is refused. The Backend is told where the
/// Item stands on one or is bound for one.
pub fn close_item(store: &mut Store, now: &str, id: &str, closing_reason: Option<&str>) -> (r:
    Result<StatusChangedItem, SetStatusError>)
    requires
        old(store).wf(),
    ensures
        final(store).wf(),
        match r {
            Ok(snapshot) => {
                &&& closed(old(store)@, id@, opt_str(closing_reason), now@) == Ok::<
                    StoreView,
                    StatusFault,
                >(final(store)@)
                &&& snapshot.shows(old(store)@.item(id@))
            },
            Err(error) => {
                &&& closed(old(store)@, id@, opt_str(closing_reason), now@) == Err::<
                    StoreView,
                    StatusFault,
                >(error@)
                &&& final(store)@ == old(store)@
            },
        },
{
    let (i, row) = match begin_transition(store, id) {
        Some(found) => found,
        None => {
            return Err(SetStatusError::NotFound);
        },
    };
    if row.lifecycle == Lifecycle::Done {
        if closing_reason.is_some() {
            return Err(SetStatusError::AlreadyClosed(row.item_class));
        }
        return Ok(row.changed());
    }
    if let Some(reason) = closing_reason {
        if reason.is_empty() {
            proof {
                assert(reason@ =~= Seq::empty());
            }
            return Err(SetStatusError::Sqlite(Fault::Check));
        }
    }
    let bound = match resolve_backend_binding(store, id) {
        Ok(bound) => bound,
        Err(error) => {
            return Err(SetStatusError::BackendBinding(error));
        },
    };
    let mut work = store.copy();
    let mut item = store.item(i).copy();
    let ghost before = item@;
    item.lifecycle = Lifecycle::Done;
    item.work_state = WorkState::Idle;
    item.closing_reason = own_text(closing_reason);
    item.updated_at = now.to_owned();
    proof {
        lemma_has(store@, id@);
        assert(item@ =~= closed_item(before, opt_str(closing_reason), now@));
        assert(before.admitted());
        assert(item@.admitted());
        lemma_edit_item(store@, i as int, item@);
    }
    work.put_item(i, item);
    if bound.is_backend_bound() {
        let payload = MutationPayload::ItemStatus(StatusChange { status: ItemStatus::Done });
        match append(
            &mut work,
            AppendRequest {
                mutation_type: MutationType::SetItemStatus,
                item_id: id,
                item_class: row.item_class,
                payload: &payload,
                promotion_operation_id: None,
                now_iso: now,
            },
        ) {
            Ok(_) => {},
            Err(error) => {
                return Err(SetStatusError::Mutation(error));
            },
        }
    }
    *store = work;
    Ok(row.changed())
}

// ---- Laws ---------------------------------------------------------------

/// Closing is terminal: a closed Item is done, is not being worked on, and
/// closing it again changes nothing.
pub proof fn law_closing_is_terminal(
    v: StoreView,
    id: Seq<char>,
    reason: Option<Seq<char>>,
    now: Seq<char>,
    later: Seq<char>,
)
    requires
        v.wf(),
        closed(v, id, reason, now) is Ok,
    ensures
        ({
            let after = closed(v, id, reason, now)->Ok_0;
            &&& after.item(id).lifecycle == Lifecycle::Done
            &&& after.item(id).status() == ItemStatus::Done
            &&& v.item(id).lifecycle == Lifecycle::Open ==> after.item(id).work_state
                == WorkState::Idle
            &&& closed(after, id, None, later) == Ok::<StoreView, StatusFault>(after)
        }),
{
    let after = closed(v, id, reason, now)->Ok_0;
    lemma_has(v, id);
    let i = v.at(id);
    assert(crate::tables::ids(after.items) =~= crate::tables::ids(v.items));
    crate::tables::lemma_at(after, i);
}

} // verus!
