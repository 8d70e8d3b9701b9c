//! Creating, closing, starting, accepting and editing Items.

use vstd::prelude::*;

use crate::domain::{
    ItemClass, ItemStatus, Lifecycle, MutationType, Origin, Priority, SelectionState, WorkState,
};
use crate::keep::{lemma_edit_item, lemma_insert_item};
use crate::laws::facts::{
    being_promoted, fresh_row, is_epic, items_kept_but, lemma_binding, lemma_log_grew,
    lemma_one_row, lemma_row, lemma_row_has, log_grew, log_kept, log_open, only_item_changed,
    only_items_and_log, unused_name,
};
use crate::mutations::{appended, AppendView};
use crate::payload::json_object;
use crate::repository::create::{
    created, numbered, CreateError, CreateLocalEpicInput, CreateLocalTicketInput, CreatedEpic,
    CreatedTicket,
};
use crate::repository::selection::{accept_refusal, accepted, AcceptError};
use crate::repository::status::{closed, StatusFault};
use crate::repository::update::{all_appended, updated, UpdateError, UpdateRequest};
use crate::repository::work_state::{work_refusal, worked, SetWorkStateError};
use crate::rows::{ItemView, MutationView};
use crate::tables::{Fault, StoreView};
use crate::text::decimal;

verus! {

// ---- Creating -----------------------------------------------------------

/// The store has the Item that it had not, and whatever it had.
proof fn lemma_created(v: StoreView, draft: ItemView)
    requires
        v.wf(),
        created(v, draft) is Ok,
    ensures
        ({
            let after = created(v, draft)->Ok_0;
            let item = numbered(v, draft);
            &&& after.wf()
            &&& !v.has(draft.id)
            &&& after.has(draft.id)
            &&& after.item(draft.id) == item
            &&& after.items.len() == v.items.len() + 1
            &&& forall|i: int|
                0 <= i < v.items.len() ==> after.has((#[trigger] v.items[i]).id) && after.item(
                    v.items[i].id,
                ) == v.items[i]
        }),
{
    let item = numbered(v, draft);
    let after = created(v, draft)->Ok_0;
    lemma_insert_item(v, item);
    let inserted = StoreView {
        items: v.items.insert(crate::tables::place(v.items, item.created_seq), item),
        ..v
    };
    assert(after.items == inserted.items);
    assert(after.wf());
    let at = crate::tables::place(v.items, item.created_seq);
    crate::keep::lemma_place(v.items, item.created_seq);
    assert(after.items[at] == item);
    lemma_row_has(after, at);
    assert forall|i: int| 0 <= i < v.items.len() implies after.has((#[trigger] v.items[i]).id)
        && after.item(v.items[i].id) == v.items[i] by {
        let k = if i < at {
            i
        } else {
            i + 1
        };
        assert(after.items[k] == v.items[i]);
        lemma_row_has(after, k);
    }
}

/// A created Ticket has the kind, the Priority, the title, the body and the Epic
/// that were asked for; it is Local, accepted, open and idle, and its Display ID
/// is the prefix with the next number. Every Item that there was is as it was.
/// The answer tells the kind, the Priority, the title and the body that were
/// asked for, and the ID and Display ID of the stored Ticket.
pub proof fn law_a_ticket_is_created_as_asked(
    v: StoreView,
    input: CreateLocalTicketInput<'_>,
    id: Seq<char>,
    now: Seq<char>,
    answer: CreatedTicket,
)
    requires
        v.wf(),
        created(v, input.drafted(id, now)) is Ok,
        answer.shows(numbered(v, input.drafted(id, now))),
    ensures
        ({
            let after = created(v, input.drafted(id, now))->Ok_0;
            let stored = after.item(id);
            &&& !v.has(id)
            &&& after.has(id)
            &&& stored.id == id
            &&& stored.item_class == ItemClass::Ticket
            &&& stored.ticket_kind == Some(input.kind)
            &&& stored.priority == Some(input.priority)
            &&& stored.title == input.title@
            &&& stored.body == input.body@
            &&& input.parent_id is None ==> stored.container_id is None
            &&& input.parent_id is Some ==> stored.container_id == Some(input.parent_id->0@)
            &&& stored.origin == Origin::Local
            &&& stored.backend_kind is None
            &&& stored.backend_key is None
            &&& stored.selection_state == Some(SelectionState::Accepted)
            &&& stored.lifecycle == Lifecycle::Open
            &&& stored.work_state == WorkState::Idle
            &&& stored.closing_reason is None
            &&& stored.created_at == now
            &&& stored.updated_at == now
            &&& stored.display_created_at == now
            &&& stored.display_id == v.display_prefix->0 + "-"@ + decimal(v.display_seq->0 + 1)
            &&& stored.created_seq == v.item_created_seq->0 + 1
            &&& answer.id@ == id
            &&& answer.display_id@ == stored.display_id
            &&& answer.kind == input.kind
            &&& answer.priority == input.priority
            &&& answer.status == ItemStatus::Open
            &&& answer.origin == Origin::Local
            &&& answer.title@ == input.title@
            &&& answer.body@ == input.body@
        }),
{
    lemma_created(v, input.drafted(id, now));
}

/// A created Epic has the title and the body that were asked for, and nothing
/// that only a Ticket has; it is Local, open and idle, and in no Epic.
pub proof fn law_an_epic_is_created_as_asked(
    v: StoreView,
    input: CreateLocalEpicInput<'_>,
    id: Seq<char>,
    now: Seq<char>,
    answer: CreatedEpic,
)
    requires
        v.wf(),
        created(v, input.drafted(id, now)) is Ok,
        answer.shows(numbered(v, input.drafted(id, now))),
    ensures
        ({
            let after = created(v, input.drafted(id, now))->Ok_0;
            let stored = after.item(id);
            &&& !v.has(id)
            &&& after.has(id)
            &&& stored.id == id
            &&& stored.item_class == ItemClass::Epic
            &&& stored.ticket_kind is None
            &&& stored.priority is None
            &&& stored.selection_state is None
            &&& stored.title == input.title@
            &&& stored.body == input.body@
            &&& stored.container_id is None
            &&& stored.origin == Origin::Local
            &&& stored.backend_kind is None
            &&& stored.backend_key is None
            &&& stored.lifecycle == Lifecycle::Open
            &&& stored.work_state == WorkState::Idle
            &&& stored.closing_reason is None
            &&& stored.created_at == now
            &&& stored.updated_at == now
            &&& stored.display_created_at == now
            &&& stored.display_id == v.display_prefix->0 + "-"@ + decimal(v.display_seq->0 + 1)
            &&& stored.created_seq == v.item_created_seq->0 + 1
            &&& answer.id@ == id
            &&& answer.display_id@ == stored.display_id
            &&& answer.status == ItemStatus::Open
            &&& answer.origin == Origin::Local
            &&& answer.title@ == input.title@
            &&& answer.body@ == input.body@
        }),
{
    lemma_created(v, input.drafted(id, now));
}

/// Creating a Ticket leaves every Item there was, and of the rest moves the two
/// counters alone, each by one: nothing is queued for a Backend.
pub proof fn law_creating_a_ticket_changes_nothing_else(
    v: StoreView,
    input: CreateLocalTicketInput<'_>,
    id: Seq<char>,
    now: Seq<char>,
)
    requires
        v.wf(),
        created(v, input.drafted(id, now)) is Ok,
    ensures
        created_beside(v, created(v, input.drafted(id, now))->Ok_0),
{
    lemma_created(v, input.drafted(id, now));
}

/// Creating an Epic leaves every Item there was, and of the rest moves the two
/// counters alone, each by one: nothing is queued for a Backend.
pub proof fn law_creating_an_epic_changes_nothing_else(
    v: StoreView,
    input: CreateLocalEpicInput<'_>,
    id: Seq<char>,
    now: Seq<char>,
)
    requires
        v.wf(),
        created(v, input.drafted(id, now)) is Ok,
    ensures
        created_beside(v, created(v, input.drafted(id, now))->Ok_0),
{
    lemma_created(v, input.drafted(id, now));
}

/// Whether one Item came to those that there were, and the two counters moved by
/// one.
pub open spec fn created_beside(v: StoreView, after: StoreView) -> bool {
    &&& after.items.len() == v.items.len() + 1
    &&& forall|i: int|
        0 <= i < v.items.len() ==> after.has((#[trigger] v.items[i]).id) && after.item(
            v.items[i].id,
        ) == v.items[i]
    &&& v.display_seq is Some && after.display_seq == Some(v.display_seq->0 + 1)
    &&& v.item_created_seq is Some && after.item_created_seq == Some(v.item_created_seq->0 + 1)
    &&& after == StoreView {
        items: after.items,
        display_seq: after.display_seq,
        item_created_seq: after.item_created_seq,
        ..v
    }
}

/// Whether the store can number another Local Item.
pub open spec fn can_number(v: StoreView) -> bool {
    &&& v.display_prefix is Some
    &&& v.display_seq is Some && v.display_seq->0 != i64::MAX
    &&& v.item_created_seq is Some && v.item_created_seq->0 != i64::MAX
    &&& unused_name(v, v.display_prefix->0 + "-"@ + decimal(v.display_seq->0 + 1))
}

/// A Ticket is created exactly where the store can number it, its ID is new and
/// its Epic, if any, is one.
pub proof fn law_when_a_ticket_is_created(
    v: StoreView,
    input: CreateLocalTicketInput<'_>,
    id: Seq<char>,
    now: Seq<char>,
)
    requires
        v.wf(),
    ensures
        created(v, input.drafted(id, now)) is Ok == (can_number(v) && (forall|i: int|
            0 <= i < v.items.len() ==> (#[trigger] v.items[i]).id != id) && (input.parent_id is Some
            ==> is_epic(v, input.parent_id->0@))),
        v.display_seq is None ==> created(v, input.drafted(id, now)) is Err && created(
            v,
            input.drafted(id, now),
        )->Err_0 is Sequence,
        v.display_seq is Some && v.display_seq->0 != i64::MAX && v.display_prefix is None
            ==> created(v, input.drafted(id, now)) == Err::<StoreView, CreateError>(
            CreateError::DisplayPrefixMissing,
        ),
        can_number(v) && !(forall|i: int|
            0 <= i < v.items.len() ==> (#[trigger] v.items[i]).id != id) ==> created(
            v,
            input.drafted(id, now),
        ) == Err::<StoreView, CreateError>(CreateError::Sqlite(Fault::IdTaken)),
{
    lemma_has_row(v, id);
    if input.parent_id is Some {
        lemma_epic(v, input.parent_id->0@);
    }
}

/// An Epic is created exactly where the store can number it and its ID is new.
pub proof fn law_when_an_epic_is_created(
    v: StoreView,
    input: CreateLocalEpicInput<'_>,
    id: Seq<char>,
    now: Seq<char>,
)
    requires
        v.wf(),
    ensures
        created(v, input.drafted(id, now)) is Ok == (can_number(v) && forall|i: int|
            0 <= i < v.items.len() ==> (#[trigger] v.items[i]).id != id),
{
    lemma_has_row(v, id);
}

/// An ID is there where a row has it.
pub proof fn lemma_has_row(v: StoreView, id: Seq<char>)
    requires
        v.wf(),
    ensures
        v.has(id) == !(forall|i: int| 0 <= i < v.items.len() ==> (#[trigger] v.items[i]).id != id),
{
    if v.has(id) {
        lemma_row(v, id);
        assert(v.items[v.at(id)].id == id);
    }
    if !(forall|i: int| 0 <= i < v.items.len() ==> (#[trigger] v.items[i]).id != id) {
        let i = choose|i: int| 0 <= i < v.items.len() && (#[trigger] v.items[i]).id == id;
        lemma_row_has(v, i);
    }
}

/// An Epic is a row of the table.
pub proof fn lemma_epic(v: StoreView, id: Seq<char>)
    ensures
        v.has_epic(id) == is_epic(v, id),
{
    let ks = crate::tables::keys(v.items);
    if is_epic(v, id) {
        let i = choose|i: int|
            0 <= i < v.items.len() && (#[trigger] v.items[i]).id == id && v.items[i].item_class
                == ItemClass::Epic;
        assert(ks[i] == (id, ItemClass::Epic));
    }
    if v.has_epic(id) {
        let i = choose|i: int| 0 <= i < ks.len() && ks[i] == (id, ItemClass::Epic);
        assert(v.items[i].id == id);
    }
}

// ---- Closing ------------------------------------------------------------

/// Closing an open Item makes it done and idle, with the reason that was given
/// and the time of the call; everything else of it, and every other Item, stays.
/// Where the Item is on a Backend, or a Promotion of it has not come to its end,
/// one Mutation is queued that says it is done; else none is.
pub proof fn law_closing_an_open_item(
    v: StoreView,
    id: Seq<char>,
    reason: Option<Seq<char>>,
    now: Seq<char>,
)
    requires
        v.wf(),
        v.has(id),
        v.item(id).lifecycle == Lifecycle::Open,
        closed(v, id, reason, now) is Ok,
    ensures
        ({
            let after = closed(v, id, reason, now)->Ok_0;
            let before = v.item(id);
            &&& only_items_and_log(v, after)
            &&& items_kept_but(v, after, id)
            &&& after.item(id) == (ItemView {
                lifecycle: Lifecycle::Done,
                work_state: WorkState::Idle,
                closing_reason: reason,
                updated_at: now,
                ..before
            })
            &&& if before.origin == Origin::Backend || being_promoted(v, id) {
                log_grew(
                    v,
                    after,
                    fresh_row(
                        v.mutation_seq->0 + 1,
                        MutationType::SetItemStatus,
                        before,
                        json_object(seq![("status"@, "done"@)]),
                        now,
                    ),
                )
            } else {
                log_kept(v, after)
            }
        }),
{
    lemma_row(v, id);
    lemma_binding(v, id);
    let before = v.item(id);
    assert(before.admitted());
    let item = crate::repository::status::closed_item(before, reason, now);
    let written = v.with_item(item);
    if reason is Some && reason->0.len() == 0 {
        assert(reason->0 =~= Seq::<char>::empty());
    }
    assert(item.admitted());
    lemma_edit_item(v, v.at(id), item);
    lemma_one_row(v, written, id, item);
    let after = closed(v, id, reason, now)->Ok_0;
    let request = crate::repository::status::closing_request(before, now);
    if before.origin == Origin::Backend || being_promoted(v, id) {
        assert(after == appended(written, request)->Ok_0);
        lemma_log_grew(written, request);
        assert(seq![("status"@, "done"@)] =~= crate::payload::status_pairs(ItemStatus::Done));
        assert(after.items == written.items);
    }
    lemma_one_row(v, after, id, item);
}

/// Closing is refused where there is no such Item; where it is done and a reason
/// is given; and where the reason is empty. It goes through on every other Item
/// that is Local, is not being promoted, and on every other Backend Item whose
/// Mutation has a sequence. On a done Item without a reason it changes nothing.
pub proof fn law_when_closing_is_refused(
    v: StoreView,
    id: Seq<char>,
    reason: Option<Seq<char>>,
    now: Seq<char>,
)
    requires
        v.wf(),
    ensures
        !v.has(id) ==> closed(v, id, reason, now) == Err::<StoreView, StatusFault>(
            StatusFault::NotFound,
        ),
        v.has(id) && v.item(id).lifecycle == Lifecycle::Done && reason is Some ==> closed(
            v,
            id,
            reason,
            now,
        ) == Err::<StoreView, StatusFault>(StatusFault::AlreadyClosed(v.item(id).item_class)),
        v.has(id) && v.item(id).lifecycle == Lifecycle::Done && reason is None ==> closed(
            v,
            id,
            reason,
            now,
        ) == Ok::<StoreView, StatusFault>(v),
        v.has(id) && v.item(id).lifecycle == Lifecycle::Open && reason is Some && reason->0.len()
            == 0 ==> closed(v, id, reason, now) == Err::<StoreView, StatusFault>(
            StatusFault::Sqlite(Fault::Check),
        ),
        v.has(id) && v.item(id).lifecycle == Lifecycle::Open && (reason is Some ==> reason->0.len()
            > 0) && v.item(id).origin == Origin::Local && !being_promoted(v, id) ==> closed(
            v,
            id,
            reason,
            now,
        ) is Ok,
        v.has(id) && v.item(id).lifecycle == Lifecycle::Open && (reason is Some ==> reason->0.len()
            > 0) && v.item(id).origin == Origin::Backend && log_open(v) ==> closed(
            v,
            id,
            reason,
            now,
        ) is Ok,
{
    if reason is Some && reason->0.len() == 0 {
        assert(reason->0 =~= Seq::<char>::empty());
    }
    if v.has(id) {
        lemma_row(v, id);
        lemma_binding(v, id);
        let item = crate::repository::status::closed_item(v.item(id), reason, now);
        lemma_one_row(v, v.with_item(item), id, item);
        assert(crate::tables::keys(v.with_item(item).items)[v.at(id)] == (
            id,
            v.item(id).item_class,
        ));
    }
}

// ---- Starting and stopping ----------------------------------------------

/// Starting and stopping write the Work State and the time of an Item that was
/// not in that state, and nothing else at all.
pub proof fn law_work_state_is_all_that_is_written(
    v: StoreView,
    id: Seq<char>,
    target: WorkState,
    now: Seq<char>,
)
    requires
        v.wf(),
        v.has(id),
    ensures
        ({
            let after = worked(v, id, target, now);
            &&& only_item_changed(v, after, id)
            &&& after.item(id).work_state == target
            &&& v.item(id).work_state == target ==> after == v
            &&& v.item(id).work_state != target ==> after.item(id) == (ItemView {
                work_state: target,
                updated_at: now,
                ..v.item(id)
            })
        }),
{
    lemma_row(v, id);
    let item = ItemView { work_state: target, updated_at: now, ..v.item(id) };
    lemma_one_row(v, v.with_item(item), id, item);
}

/// Work is started and stopped on every Item that is not done, but is started on
/// no Ticket in triage and on no parked one.
pub proof fn law_which_work_may_start(v: StoreView, id: Seq<char>, target: WorkState)
    requires
        v.wf(),
    ensures
        work_refusal(v, id, target) is None == (v.has(id) && v.item(id).lifecycle == Lifecycle::Open
            && (target == WorkState::Active ==> v.item(id).selection_state is None || v.item(
            id,
        ).selection_state == Some(SelectionState::Accepted))),
        !v.has(id) ==> work_refusal(v, id, target) == Some(SetWorkStateError::NotFound),
        v.has(id) && v.item(id).lifecycle == Lifecycle::Done ==> work_refusal(v, id, target) == Some(
            SetWorkStateError::LockedDone(v.item(id).item_class),
        ),
        work_refusal(v, id, target) == Some(SetWorkStateError::TriageNotStartable) ==> v.item(
            id,
        ).selection_state == Some(SelectionState::Triage),
        work_refusal(v, id, target) == Some(SetWorkStateError::ParkedNotStartable) ==> v.item(
            id,
        ).selection_state == Some(SelectionState::Parked),
{
    match v.item(id).selection_state {
        Some(SelectionState::Triage) => {},
        Some(SelectionState::Accepted) => {},
        Some(SelectionState::Parked) => {},
        None => {},
    }
}

// ---- Accepting ----------------------------------------------------------

/// Accepting a Ticket in triage makes it accepted, at the Priority that was
/// given, and changes nothing else but its time; an accepted one is left alone.
pub proof fn law_accepting_ranks_a_ticket_in_triage(
    v: StoreView,
    id: Seq<char>,
    priority: Option<Priority>,
    now: Seq<char>,
)
    requires
        v.wf(),
        accept_refusal(v, id, priority) is None,
    ensures
        ({
            let after = accepted(v, id, priority, now);
            &&& only_item_changed(v, after, id)
            &&& after.item(id).selection_state == Some(SelectionState::Accepted)
            &&& v.item(id).selection_state == Some(SelectionState::Triage) ==> after.item(id) == (
            ItemView {
                selection_state: Some(SelectionState::Accepted),
                priority,
                updated_at: now,
                ..v.item(id)
            }) && priority is Some
            &&& v.item(id).selection_state != Some(SelectionState::Triage) ==> after == v
        }),
{
    lemma_row(v, id);
    let item = ItemView {
        selection_state: Some(SelectionState::Accepted),
        priority,
        updated_at: now,
        ..v.item(id)
    };
    lemma_one_row(v, v.with_item(item), id, item);
}

/// A Ticket in triage is accepted where a Priority is given, an accepted one
/// where none is; a parked one, an Epic and what is not there never.
pub proof fn law_which_tickets_are_accepted(
    v: StoreView,
    id: Seq<char>,
    priority: Option<Priority>,
)
    requires
        v.wf(),
    ensures
        accept_refusal(v, id, priority) == (if !v.has(id) {
            Some(AcceptError::NotFound)
        } else if v.item(id).item_class == ItemClass::Epic {
            Some(AcceptError::NotATicket)
        } else if v.item(id).selection_state == Some(SelectionState::Parked) {
            Some(AcceptError::Parked)
        } else if v.item(id).selection_state == Some(SelectionState::Triage) && priority is None {
            Some(AcceptError::PriorityRequired)
        } else if v.item(id).selection_state == Some(SelectionState::Accepted) && priority is Some {
            Some(AcceptError::PriorityOnAccepted)
        } else {
            None
        }),
{
    if v.has(id) {
        lemma_row(v, id);
        assert(v.item(id).admitted());
    }
}

// ---- Editing ------------------------------------------------------------

/// The title that an edit asks for.
pub open spec fn wanted_title(request: UpdateRequest<'_>, item: ItemView) -> Seq<char> {
    if request.title is Some {
        request.title->0@
    } else {
        item.title
    }
}

/// The body that an edit asks for.
pub open spec fn wanted_body(request: UpdateRequest<'_>, item: ItemView) -> Seq<char> {
    if request.body is Some {
        request.body->0@
    } else {
        item.body
    }
}

/// An edit writes the title, the body, the Priority and the Epic that it asks
/// for, and leaves alone what it does not ask for; nothing else of the Item but
/// its time changes, and that only where the edit changed something; and no other
/// Item changes.
pub proof fn law_an_edit_writes_what_it_asks_for(
    v: StoreView,
    request: UpdateRequest<'_>,
    now: Seq<char>,
)
    requires
        v.wf(),
        updated(v, request, now) is Ok,
    ensures
        ({
            let id = request.id@;
            let after = updated(v, request, now)->Ok_0;
            let before = v.item(id);
            let edited = after.item(id);
            &&& v.has(id)
            &&& only_items_and_log(v, after)
            &&& items_kept_but(v, after, id)
            &&& edited.title == wanted_title(request, before)
            &&& edited.body == wanted_body(request, before)
            &&& request.priority is Some ==> edited.priority == request.priority
            &&& request.priority is None ==> edited.priority == before.priority
            &&& request.parent is Unchanged ==> edited.container_id == before.container_id
            &&& request.parent is Clear ==> edited.container_id is None
            &&& request.parent is To ==> edited.container_id == Some(request.parent->To_0@)
                && is_epic(v, request.parent->To_0@) || after == v
            &&& edited == (ItemView {
                title: edited.title,
                body: edited.body,
                priority: edited.priority,
                container_id: edited.container_id,
                updated_at: edited.updated_at,
                ..before
            })
            &&& edited.title == before.title && edited.body == before.body && edited.priority
                == before.priority && edited.container_id == before.container_id ==> after == v
            &&& after != v ==> edited.updated_at == now
        }),
{
    let id = request.id@;
    lemma_row(v, id);
    let before = v.item(id);
    let item = request.edited(before);
    let after = updated(v, request, now)->Ok_0;
    if item == before {
        assert(items_kept_but(v, after, id));
    } else {
        lemma_appended_log(v, request.requests(before, item, now));
        lemma_one_row(v, after, id, ItemView { updated_at: now, ..item });
        if request.parent is To {
            lemma_epic(v, request.parent->To_0@);
        }
        let edited = after.item(id);
        if edited.title == before.title && edited.body == before.body && edited.priority
            == before.priority && edited.container_id == before.container_id {
            assert(item =~= before);
        }
    }
}

/// Requests change the log alone.
proof fn lemma_appended_log(v: StoreView, requests: Seq<AppendView>)
    requires
        v.wf(),
    ensures
        all_appended(v, requests) is Ok ==> {
            let after = all_appended(v, requests)->Ok_0;
            &&& after.wf()
            &&& after == (StoreView {
                mutations: after.mutations,
                mutation_seq: after.mutation_seq,
                ..v
            })
            &&& after.mutations.len() == v.mutations.len() + requests.len()
            &&& forall|m: MutationView|
                v.mutations.contains(m) ==> #[trigger] after.mutations.contains(m)
            &&& requests.len() > 0 ==> v.mutation_seq is Some
            &&& requests.len() > 0 ==> after.mutation_seq == Some(
                v.mutation_seq->0 + requests.len(),
            )
            &&& forall|k: int|
                0 <= k < requests.len() ==> after.mutations.contains(
                    crate::mutations::pending_row(
                        #[trigger] requests[k],
                        v.mutation_seq->0 + 1 + k,
                    ),
                )
        },
    decreases requests.len(),
{
    if requests.len() > 0 && all_appended(v, requests) is Ok {
        let rest = requests.drop_last();
        lemma_appended_log(v, rest);
        let before = all_appended(v, rest)->Ok_0;
        let after = all_appended(v, requests)->Ok_0;
        lemma_log_grew(before, requests.last());
        let row = crate::mutations::pending_row(requests.last(), before.mutation_seq->0 + 1);
        crate::keep::lemma_insert_mutation(before, row);
        assert forall|k: int| 0 <= k < requests.len() implies after.mutations.contains(
            crate::mutations::pending_row(#[trigger] requests[k], v.mutation_seq->0 + 1 + k),
        ) by {
            if k < rest.len() {
                assert(rest[k] == requests[k]);
            }
        }
    }
}

/// The Backend is told of every edit of a Backend Item's title, body or Epic: of
/// the Epic it left, of the Epic it joined, and, where the title or the body is
/// another than before, of both as they are now; each in one pending Mutation, in
/// this order, and of nothing else.
pub proof fn law_an_edit_tells_the_backend(
    v: StoreView,
    request: UpdateRequest<'_>,
    now: Seq<char>,
)
    requires
        v.wf(),
        updated(v, request, now) is Ok,
        v.item(request.id@).origin == Origin::Backend,
        request.item_class == v.item(request.id@).item_class,
    ensures
        ({
            let id = request.id@;
            let after = updated(v, request, now)->Ok_0;
            let before = v.item(id);
            let edited = after.item(id);
            let moved = edited.container_id != before.container_id;
            let left = moved && before.container_id is Some;
            let joined = moved && edited.container_id is Some;
            let rewritten = edited.title != before.title || edited.body != before.body;
            let told = (if left {
                1int
            } else {
                0
            }) + (if joined {
                1int
            } else {
                0
            }) + (if rewritten {
                1int
            } else {
                0
            });
            let first = v.mutation_seq->0 + 1;
            &&& after.mutations.len() == v.mutations.len() + told
            &&& forall|m: MutationView|
                v.mutations.contains(m) ==> #[trigger] after.mutations.contains(m)
            &&& told == 0 ==> log_kept(v, after)
            &&& left ==> after.mutations.contains(
                fresh_row(
                    first,
                    MutationType::RemoveTicketFromEpic,
                    before,
                    json_object(seq![("epic_id"@, before.container_id->0)]),
                    now,
                ),
            )
            &&& joined ==> after.mutations.contains(
                fresh_row(
                    first + (if left {
                        1int
                    } else {
                        0
                    }),
                    MutationType::AddTicketToEpic,
                    before,
                    json_object(seq![("epic_id"@, edited.container_id->0)]),
                    now,
                ),
            )
            &&& rewritten ==> after.mutations.contains(
                fresh_row(
                    first + told - 1,
                    if before.item_class == ItemClass::Ticket {
                        MutationType::UpdateTicket
                    } else {
                        MutationType::UpdateEpic
                    },
                    before,
                    json_object(seq![("title"@, edited.title), ("body"@, edited.body)]),
                    now,
                ),
            )
        }),
{
    let id = request.id@;
    lemma_row(v, id);
    let before = v.item(id);
    let item = request.edited(before);
    let after = updated(v, request, now)->Ok_0;
    if item != before {
        let requests = request.requests(before, item, now);
        lemma_appended_log(v, requests);
        lemma_one_row(v, after, id, ItemView { updated_at: now, ..item });
        let moved = item.container_id != before.container_id;
        let left = moved && before.container_id is Some;
        let joined = moved && item.container_id is Some;
        let rewritten = item.title != before.title || item.body != before.body;
        if left {
            assert(requests[0] == request.mutation(
                MutationType::RemoveTicketFromEpic,
                json_object(crate::payload::epic_pairs(before.container_id->0)),
                now,
            ));
        }
        if joined {
            let k: int = if left {
                1
            } else {
                0
            };
            assert(requests[k] == request.mutation(
                MutationType::AddTicketToEpic,
                json_object(crate::payload::epic_pairs(item.container_id->0)),
                now,
            ));
        }
        if rewritten {
            assert(requests[requests.len() - 1].payload == json_object(
                crate::payload::title_body_pairs(item.title, item.body),
            ));
        }
    }
}

/// An edit is refused where there is no such Item, where the Epic it asks for is
/// none, and where an Epic is to have a Priority; with a log that is open, a
/// change of a Local Item's title or body is never refused.
pub proof fn law_when_an_edit_is_refused(
    v: StoreView,
    request: UpdateRequest<'_>,
    now: Seq<char>,
)
    requires
        v.wf(),
    ensures
        !v.has(request.id@) ==> updated(v, request, now) == Err::<StoreView, UpdateError>(
            UpdateError::NotFound,
        ),
        v.has(request.id@) && request.parent is To && !is_epic(v, request.parent->To_0@)
            && v.item(request.id@).origin == Origin::Local ==> updated(v, request, now) is Err,
        v.has(request.id@) && v.item(request.id@).item_class == ItemClass::Epic && request.priority
            is Some ==> updated(v, request, now) is Err,
        v.has(request.id@) && v.item(request.id@).origin == Origin::Local && (v.item(
            request.id@,
        ).item_class == ItemClass::Epic ==> request.priority is None) && (request.parent is To
            ==> is_epic(v, request.parent->To_0@)) ==> updated(v, request, now) is Ok,
{
    if v.has(request.id@) {
        lemma_row(v, request.id@);
        let before = v.item(request.id@);
        assert(before.admitted());
        let item = request.edited(before);
        if request.parent is To {
            lemma_epic(v, request.parent->To_0@);
            if item == before {
                assert(crate::tables::contained_in_epics(v.items));
                assert(v.items[v.at(request.id@)].container_id is Some);
            }
        }
        if item.container_id is Some && !(request.parent is To) {
            assert(v.items[v.at(request.id@)].container_id is Some);
        }
        if before.item_class == ItemClass::Epic && request.priority is Some {
            assert(item.priority != before.priority);
        }
    }
}

/// Whether the log can take so many Mutations more.
pub open spec fn log_can_take(v: StoreView, count: int) -> bool {
    &&& v.mutation_seq is Some
    &&& v.mutation_seq->0 + count <= i64::MAX
    &&& forall|m: MutationView| #[trigger]
        v.mutations.contains(m) ==> m.sequence <= v.mutation_seq->0
}

proof fn lemma_all_appended(v: StoreView, requests: Seq<AppendView>)
    requires
        v.wf(),
        log_can_take(v, requests.len() as int),
        forall|k: int|
            0 <= k < requests.len() ==> crate::tables::keys(v.items).contains(
                ((#[trigger] requests[k]).item_id, requests[k].item_class),
            ),
    ensures
        all_appended(v, requests) is Ok,
        log_can_take(all_appended(v, requests)->Ok_0, 0),
    decreases requests.len(),
{
    if requests.len() > 0 {
        let rest = requests.drop_last();
        let last = requests.last();
        assert(requests[requests.len() - 1] == last);
        assert forall|k: int| 0 <= k < rest.len() implies crate::tables::keys(v.items).contains(
            ((#[trigger] rest[k]).item_id, rest[k].item_class),
        ) by {
            assert(rest[k] == requests[k]);
        }
        lemma_all_appended(v, rest);
        lemma_appended_log(v, rest);
        let before = all_appended(v, rest)->Ok_0;
        let next = before.mutation_seq->0 + 1;
        if before.has_mutation(next) {
            let i = choose|i: int|
                0 <= i < before.mutations.len() && (#[trigger] before.mutations[i]).sequence
                    == next;
            assert(before.mutations.contains(before.mutations[i]));
        }
        lemma_log_grew(before, last);
    }
}

/// With a log that can take three Mutations more, an edit of a Backend Item of
/// the class named succeeds wherever it asks for an Epic that is one and gives
/// no Epic a Priority.
pub proof fn law_when_an_edit_of_a_backend_item_succeeds(
    v: StoreView,
    request: UpdateRequest<'_>,
    now: Seq<char>,
)
    requires
        v.wf(),
        v.has(request.id@),
        v.item(request.id@).origin == Origin::Backend,
        request.item_class == v.item(request.id@).item_class,
        request.item_class == ItemClass::Epic ==> request.priority is None,
        request.parent is To ==> is_epic(v, request.parent->To_0@),
        log_can_take(v, 3),
    ensures
        updated(v, request, now) is Ok,
{
    let id = request.id@;
    lemma_row(v, id);
    let before = v.item(id);
    assert(before.admitted());
    let item = request.edited(before);
    if request.parent is To {
        lemma_epic(v, request.parent->To_0@);
    }
    if item.container_id is Some && !(request.parent is To) {
        assert(v.items[v.at(id)].container_id is Some);
    }
    let requests = request.requests(before, item, now);
    assert(crate::tables::keys(v.items)[v.at(id)] == (id, before.item_class));
    assert forall|k: int| 0 <= k < requests.len() implies crate::tables::keys(v.items).contains(
        ((#[trigger] requests[k]).item_id, requests[k].item_class),
    ) by {
        assert(requests[k].item_id == id && requests[k].item_class == before.item_class);
    }
    lemma_all_appended(v, requests);
}

} // verus!
