//! What the calls that change Items leave behind and answer.

use vstd::prelude::*;

use crate::domain::{
    ItemClass, Lifecycle, MutationType, Origin, Priority, SelectionState, WorkState,
};
use crate::laws::admission::is_taken;
use crate::laws::detach::{
    goes_back_to, has_unsettled, law_what_detaching_writes, law_when_detaching_is_refused,
};
use crate::laws::edits::{
    can_number, created_beside, law_a_ticket_is_created_as_asked,
    law_accepting_ranks_a_ticket_in_triage, law_an_edit_tells_the_backend,
    law_an_edit_writes_what_it_asks_for, law_an_epic_is_created_as_asked, law_closing_an_open_item,
    law_creating_a_ticket_changes_nothing_else, law_creating_an_epic_changes_nothing_else,
    law_when_a_ticket_is_created, law_when_an_epic_is_created, law_when_closing_is_refused,
    law_which_tickets_are_accepted, law_which_work_may_start, law_work_state_is_all_that_is_written,
    lemma_has_row, wanted_body, wanted_title,
};
use crate::laws::facts::{
    being_promoted, fresh_row, is_epic, items_kept_but, lemma_row, log_grew, log_kept,
    only_item_changed, only_items_and_log,
};
use crate::laws::plan::{is_asked_for, is_covered, is_ticket, law_what_a_batch_names};
use crate::laws::read_calls::goes_by;
use crate::laws::reads::law_what_a_text_names;
use crate::payload::json_object;
use crate::repository::create::{
    create_local_epic, create_local_epic_as, create_local_ticket, create_local_ticket_as,
    CreateError, CreateLocalEpicInput, CreateLocalTicketInput, CreatedEpic, CreatedTicket,
};
use crate::repository::detach::{detach, DetachError, DetachReport};
use crate::repository::plan::{clear, edit_membership, MembershipEdit, MembershipResult, PlanError};
use crate::repository::selection::{accept_ticket, AcceptError, AcceptOutcome};
use crate::repository::status::{close_item, SetStatusError, StatusChangedItem};
use crate::repository::update::{update_item, UpdateError, UpdateRequest, UpdatedItem};
use crate::repository::work_state::{set_work_state, SetWorkStateError};
use crate::rows::{opt_str, ItemView, MutationView};
use crate::tables::{Store, StoreView};

verus! {

/// Creating a Ticket gives the store a Ticket that has all that was asked for,
/// and answers with it; what was there stays. Without an ID that is new, a
/// number to give, or an Epic where one is named, nothing happens.
pub proof fn law_creating_a_ticket(
    store: &mut Store,
    now: &str,
    id: &str,
    input: &CreateLocalTicketInput<'_>,
    r: Result<CreatedTicket, CreateError>,
)
    requires
        old(store).wf(),
        call_ensures(create_local_ticket_as, (store, now, id, input), r),
    ensures
        (r is Ok) == (can_number(old(store)@) && !is_taken(old(store)@, id@) && (input.parent_id
            is Some ==> is_epic(old(store)@, input.parent_id->0@))),
        r is Err ==> final(store)@ == old(store)@,
        r is Ok ==> {
            let stored = final(store)@.item(id@);
            let answer = r->Ok_0;
            &&& created_beside(old(store)@, final(store)@)
            &&& final(store)@.has(id@)
            &&& stored.id == id@
            &&& stored.item_class == ItemClass::Ticket
            &&& stored.ticket_kind == Some(input.kind)
            &&& stored.priority == Some(input.priority)
            &&& stored.selection_state == Some(SelectionState::Accepted)
            &&& stored.title == input.title@
            &&& stored.body == input.body@
            &&& stored.container_id is Some == input.parent_id is Some
            &&& input.parent_id is Some ==> stored.container_id == Some(input.parent_id->0@)
            &&& stored.lifecycle == Lifecycle::Open
            &&& stored.work_state == WorkState::Idle
            &&& stored.origin == Origin::Local
            &&& answer.id@ == id@
            &&& answer.display_id@ == stored.display_id
            &&& answer.kind == input.kind
            &&& answer.priority == input.priority
            &&& answer.title@ == input.title@
            &&& answer.body@ == input.body@
            &&& answer.origin == Origin::Local
        },
{
    let v = old(store)@;
    law_when_a_ticket_is_created(v, *input, id@, now@);
    lemma_has_row(v, id@);
    if r is Ok {
        law_a_ticket_is_created_as_asked(v, *input, id@, now@, r->Ok_0);
        law_creating_a_ticket_changes_nothing_else(v, *input, id@, now@);
    }
}

/// Creating an Epic gives the store an Epic that has all that was asked for, and
/// answers with it; what was there stays.
pub proof fn law_creating_an_epic(
    store: &mut Store,
    now: &str,
    id: &str,
    input: &CreateLocalEpicInput<'_>,
    r: Result<CreatedEpic, CreateError>,
)
    requires
        old(store).wf(),
        call_ensures(create_local_epic_as, (store, now, id, input), r),
    ensures
        (r is Ok) == (can_number(old(store)@) && !is_taken(old(store)@, id@)),
        r is Err ==> final(store)@ == old(store)@,
        r is Ok ==> {
            let stored = final(store)@.item(id@);
            let answer = r->Ok_0;
            &&& created_beside(old(store)@, final(store)@)
            &&& final(store)@.has(id@)
            &&& stored.item_class == ItemClass::Epic
            &&& stored.ticket_kind is None
            &&& stored.priority is None
            &&& stored.title == input.title@
            &&& stored.body == input.body@
            &&& stored.container_id is None
            &&& stored.lifecycle == Lifecycle::Open
            &&& stored.origin == Origin::Local
            &&& answer.id@ == id@
            &&& answer.display_id@ == stored.display_id
            &&& answer.title@ == input.title@
            &&& answer.body@ == input.body@
        },
{
    let v = old(store)@;
    law_when_an_epic_is_created(v, *input, id@, now@);
    lemma_has_row(v, id@);
    if r is Ok {
        law_an_epic_is_created_as_asked(v, *input, id@, now@, r->Ok_0);
        law_creating_an_epic_changes_nothing_else(v, *input, id@, now@);
    }
}

/// Closing an Item that is open makes it done, for the reason given, and tells
/// the Backend that it is on or on its way to; closing one that is done changes
/// nothing, and is refused with a reason. The answer is the Item's own.
pub proof fn law_closing(
    store: &mut Store,
    now: &str,
    id: &str,
    reason: Option<&str>,
    r: Result<StatusChangedItem, SetStatusError>,
)
    requires
        old(store).wf(),
        call_ensures(close_item, (store, now, id, reason), r),
    ensures
        ({
            let v = old(store)@;
            let after = final(store)@;
            let before = v.item(id@);
            let open = v.has(id@) && before.lifecycle == Lifecycle::Open;
            let bound = before.origin == Origin::Backend || being_promoted(v, id@);
            &&& r is Err ==> after == v
            &&& r is Ok ==> v.has(id@) && after.item(id@).lifecycle == Lifecycle::Done
            &&& r is Ok ==> r->Ok_0.display_id@ == before.display_id && r->Ok_0.title@
                == before.title && r->Ok_0.item_class == before.item_class
            &&& r is Ok && !open ==> after == v && reason is None
            &&& v.has(id@) && !open ==> ((r is Err) == (reason is Some))
            &&& open && !bound && (reason is None || reason->0@.len() > 0) ==> r is Ok
            &&& open && reason is Some && reason->0@.len() == 0 ==> r is Err
            &&& r is Ok && open ==> {
                &&& only_items_and_log(v, after)
                &&& items_kept_but(v, after, id@)
                &&& after.item(id@) == ItemView {
                    lifecycle: Lifecycle::Done,
                    work_state: WorkState::Idle,
                    closing_reason: match reason {
                        Some(text) => Some(text@),
                        None => None,
                    },
                    updated_at: now@,
                    ..before
                }
                &&& !bound ==> log_kept(v, after)
                &&& bound ==> log_grew(
                    v,
                    after,
                    fresh_row(
                        v.mutation_seq->0 + 1,
                        MutationType::SetItemStatus,
                        before,
                        json_object(seq![("status"@, "done"@)]),
                        now@,
                    ),
                )
            }
        }),
{
    let v = old(store)@;
    law_when_closing_is_refused(v, id@, opt_str(reason), now@);
    if r is Ok && v.has(id@) && v.item(id@).lifecycle == Lifecycle::Open {
        law_closing_an_open_item(v, id@, opt_str(reason), now@);
        lemma_row(v, id@);
    }
}

/// Starting and stopping work changes the Work State of that Item alone and
/// queues nothing. It is refused for what is done, and starting is refused for
/// a Ticket that was not accepted.
pub proof fn law_working(
    store: &mut Store,
    now: &str,
    id: &str,
    target: WorkState,
    r: Result<StatusChangedItem, SetWorkStateError>,
)
    requires
        old(store).wf(),
        call_ensures(set_work_state, (store, now, id, target), r),
    ensures
        ({
            let v = old(store)@;
            let after = final(store)@;
            let before = v.item(id@);
            &&& r is Err ==> after == v
            &&& (r is Ok) == (v.has(id@) && before.lifecycle == Lifecycle::Open && (target
                == WorkState::Active ==> before.selection_state is None || before.selection_state
                == Some(SelectionState::Accepted)))
            &&& r is Ok ==> only_item_changed(v, after, id@) && after.item(id@) == ItemView {
                work_state: target,
                updated_at: if before.work_state == target {
                    before.updated_at
                } else {
                    now@
                },
                ..before
            }
            &&& r is Ok ==> r->Ok_0.display_id@ == before.display_id && r->Ok_0.title@
                == before.title && r->Ok_0.item_class == before.item_class
        }),
{
    let v = old(store)@;
    law_which_work_may_start(v, id@, target);
    if v.has(id@) {
        law_work_state_is_all_that_is_written(v, id@, target, now@);
    }
}

/// Accepting a Ticket in triage makes it accepted at the Priority given and
/// answers with it; an accepted one stays as it is; everything else is refused.
pub proof fn law_accepting(
    store: &mut Store,
    now: &str,
    id: &str,
    priority: Option<Priority>,
    r: Result<AcceptOutcome, AcceptError>,
)
    requires
        old(store).wf(),
        call_ensures(accept_ticket, (store, now, id, priority), r),
    ensures
        ({
            let v = old(store)@;
            let after = final(store)@;
            let before = v.item(id@);
            let waiting = v.has(id@) && before.selection_state == Some(SelectionState::Triage);
            let accepted = v.has(id@) && before.selection_state == Some(SelectionState::Accepted);
            &&& r is Err ==> after == v
            &&& (r is Ok) == ((waiting && priority is Some) || (accepted && priority is None))
            &&& accepted ==> after == v
            &&& r is Ok && waiting ==> only_item_changed(v, after, id@) && after.item(id@)
                == ItemView {
                selection_state: Some(SelectionState::Accepted),
                priority,
                updated_at: now@,
                ..before
            }
            &&& r is Ok && waiting ==> (r->Ok_0 matches AcceptOutcome::Accepted {
                display_id,
                title,
                priority: given,
            } && display_id@ == before.display_id && title@ == before.title && priority == Some(
                given,
            ))
            &&& r is Ok && accepted ==> (r->Ok_0 matches AcceptOutcome::AlreadyAccepted {
                display_id,
            } && display_id@ == before.display_id)
        }),
{
    let v = old(store)@;
    law_which_tickets_are_accepted(v, id@, priority);
    if v.has(id@) {
        lemma_row(v, id@);
        assert(v.item(id@).admitted());
        match v.item(id@).selection_state {
            Some(SelectionState::Triage) => {},
            Some(SelectionState::Accepted) => {},
            Some(SelectionState::Parked) => {},
            None => {},
        }
    }
    if r is Ok {
        law_accepting_ranks_a_ticket_in_triage(v, id@, priority, now@);
    }
}

/// An edit writes what it asks for and no more, and answers with the title that
/// the Item then has. Of a Local Item nothing is queued. The Backend of another
/// is told of every title and body that is not what it was, and of every Epic
/// left and joined.
pub proof fn law_editing(
    store: &mut Store,
    now: &str,
    request: UpdateRequest<'_>,
    r: Result<UpdatedItem, UpdateError>,
)
    requires
        old(store).wf(),
        call_ensures(update_item, (store, now, request), r),
    ensures
        ({
            let v = old(store)@;
            let after = final(store)@;
            let id = request.id@;
            let before = v.item(id);
            let edited = after.item(id);
            let rewritten = edited.title != before.title || edited.body != before.body;
            let moved = edited.container_id != before.container_id;
            &&& r is Err ==> after == v
            &&& r is Ok ==> {
                &&& v.has(id)
                &&& only_items_and_log(v, after)
                &&& items_kept_but(v, after, id)
                &&& edited.title == wanted_title(request, before)
                &&& edited.body == wanted_body(request, before)
                &&& request.priority is Some ==> edited.priority == request.priority
                &&& request.priority is None ==> edited.priority == before.priority
                &&& request.parent is Unchanged ==> !moved
                &&& request.parent is Clear ==> edited.container_id is None
                &&& request.parent is To ==> edited.container_id == Some(request.parent->To_0@)
                    || after == v
                &&& edited == ItemView {
                    title: edited.title,
                    body: edited.body,
                    priority: edited.priority,
                    container_id: edited.container_id,
                    updated_at: edited.updated_at,
                    ..before
                }
                &&& r->Ok_0.display_id@ == before.display_id
                &&& r->Ok_0.title@ == edited.title
                &&& r->Ok_0.item_class == request.item_class
                &&& before.origin == Origin::Local ==> log_kept(v, after)
                &&& before.origin == Origin::Backend && !rewritten && !moved ==> log_kept(v, after)
                &&& before.origin == Origin::Backend && request.item_class == before.item_class
                    && rewritten && !moved ==> log_grew_by(
                    v,
                    after,
                    1,
                ) && after.mutations.contains(
                    fresh_row(
                        v.mutation_seq->0 + 1,
                        if before.item_class == ItemClass::Ticket {
                            MutationType::UpdateTicket
                        } else {
                            MutationType::UpdateEpic
                        },
                        before,
                        json_object(seq![("title"@, edited.title), ("body"@, edited.body)]),
                        now@,
                    ),
                )
                &&& before.origin == Origin::Backend && request.item_class == before.item_class
                    && before.container_id is None && moved ==> after.mutations.contains(
                    fresh_row(
                        v.mutation_seq->0 + 1,
                        MutationType::AddTicketToEpic,
                        before,
                        json_object(seq![("epic_id"@, edited.container_id->0)]),
                        now@,
                    ),
                )
                &&& before.origin == Origin::Backend && request.item_class == before.item_class
                    && before.container_id is Some && moved ==> after.mutations.contains(
                    fresh_row(
                        v.mutation_seq->0 + 1,
                        MutationType::RemoveTicketFromEpic,
                        before,
                        json_object(seq![("epic_id"@, before.container_id->0)]),
                        now@,
                    ),
                )
            }
        }),
{
    let v = old(store)@;
    let id = request.id@;
    if r is Ok {
        law_an_edit_writes_what_it_asks_for(v, request, now@);
        lemma_row(v, id);
        let before = v.item(id);
        if before.origin == Origin::Backend && request.item_class == before.item_class {
            law_an_edit_tells_the_backend(v, request, now@);
        }
        if before.origin == Origin::Local {
            crate::repository::update::law_local_edits_queue_nothing(v, request, now@);
        }
    }
}

/// Whether the log has every Mutation that it had, and so many more.
pub open spec fn log_grew_by(v: StoreView, after: StoreView, count: int) -> bool {
    &&& after.mutations.len() == v.mutations.len() + count
    &&& forall|m: MutationView| v.mutations.contains(m) ==> #[trigger] after.mutations.contains(m)
}

/// Whether one of the texts names the Item.
pub open spec fn is_named(v: StoreView, texts: Seq<String>, id: Seq<char>) -> bool {
    exists|j: int| 0 <= j < texts.len() && goes_by(v, id, (#[trigger] texts[j])@)
}

/// An edit of the Plan puts in, or takes out, the Tickets that the texts name
/// and leaves every other as it was; nothing but the Plan changes. It is refused
/// as a whole where a text names nothing or names an Epic.
pub proof fn law_planning(
    store: &mut Store,
    texts: &[String],
    edit: MembershipEdit,
    r: Result<Vec<MembershipResult>, PlanError>,
    id: Seq<char>,
)
    requires
        old(store).wf(),
        call_ensures(edit_membership, (store, texts, edit), r),
    ensures
        r is Err ==> final(store)@ == old(store)@,
        final(store)@ == (StoreView { plan: final(store)@.plan, ..old(store)@ }),
        r is Ok && is_named(old(store)@, texts@, id) ==> final(store)@.plan.contains(id) == (edit
            == MembershipEdit::Add) && is_ticket(old(store)@, id),
        r is Ok && !is_named(old(store)@, texts@, id) ==> final(store)@.plan.contains(id) == old(
            store,
        )@.plan.contains(id),
        r is Ok ==> forall|j: int|
            0 <= j < texts@.len() ==> names_one(old(store)@, (#[trigger] texts@[j])@),
        match r {
            Err(PlanError::NotFound(text)) => !names_one(old(store)@, text@),
            Err(PlanError::NotATicket(display_id)) => exists|i: int|
                0 <= i < old(store)@.items.len() && (#[trigger] old(store)@.items[i]).display_id
                    == display_id@ && old(store)@.items[i].item_class == ItemClass::Epic
                    && is_named(old(store)@, texts@, old(store)@.items[i].id),
            Ok(_) => true,
        },
{
    let v = old(store)@;
    assert forall|text: Seq<char>, x: Seq<char>| #[trigger] v.names(text, x) == goes_by(
        v,
        x,
        text,
    ) by {}
    law_what_a_batch_names(v, texts@);
    match r {
        Ok(results) => {
            let targets = crate::repository::plan::batch(v, texts@)->Ok_0;
            crate::repository::plan::law_membership_follows_the_batch(v.plan, targets, edit, id);
            lemma_targets(v, texts@, targets, id);
            assert forall|j: int| 0 <= j < texts@.len() implies names_one(
                v,
                (#[trigger] texts@[j])@,
            ) by {
                assert(is_covered(v, texts@[j]@, targets));
                let k = choose|k: int|
                    0 <= k < targets.len() && v.names(texts@[j]@, #[trigger] targets[k]);
                assert(goes_by(v, targets[k], texts@[j]@));
            }
        },
        Err(PlanError::NotFound(text)) => {
            assert forall|x: Seq<char>| !#[trigger] goes_by(v, x, text@) by {
                assert(!v.names(text@, x));
            }
        },
        Err(PlanError::NotATicket(display_id)) => {
            let (j, i) = choose|j: int, i: int|
                #![trigger texts@[j], v.items[i]]
                0 <= j < texts@.len() && 0 <= i < v.items.len() && v.names(
                    texts@[j]@,
                    v.items[i].id,
                ) && v.items[i].item_class == ItemClass::Epic && v.items[i].display_id
                    == display_id@;
            assert(goes_by(v, v.items[i].id, texts@[j]@));
            assert(is_named(v, texts@, v.items[i].id));
        },
    }
}

/// Whether an Item goes by the text.
pub open spec fn names_one(v: StoreView, text: Seq<char>) -> bool {
    exists|id: Seq<char>| #[trigger] goes_by(v, id, text)
}

proof fn lemma_targets(
    v: StoreView,
    texts: Seq<String>,
    targets: Seq<Seq<char>>,
    id: Seq<char>,
)
    requires
        v.wf(),
        forall|k: int|
            0 <= k < targets.len() ==> is_asked_for(v, texts, #[trigger] targets[k]) && is_ticket(
                v,
                targets[k],
            ),
        forall|j: int| 0 <= j < texts.len() ==> is_covered(v, (#[trigger] texts[j])@, targets),
    ensures
        targets.contains(id) == is_named(v, texts, id),
        targets.contains(id) ==> is_ticket(v, id),
{
    if targets.contains(id) {
        let k = choose|k: int| 0 <= k < targets.len() && targets[k] == id;
        assert(is_asked_for(v, texts, targets[k]));
        let j = choose|j: int| 0 <= j < texts.len() && v.names((#[trigger] texts[j])@, id);
        assert(goes_by(v, id, texts[j]@));
    }
    if is_named(v, texts, id) {
        let j = choose|j: int| 0 <= j < texts.len() && goes_by(v, id, (#[trigger] texts[j])@);
        assert(is_covered(v, texts[j]@, targets));
        let k = choose|k: int| 0 <= k < targets.len() && v.names(texts[j]@, #[trigger] targets[k]);
        assert(v.names(texts[j]@, id));
        crate::repository::resolve::lemma_names_one(v, texts[j]@, targets[k], id);
    }
}

/// Clearing empties the Plan, answers how many there were, and changes nothing
/// else.
pub proof fn law_clearing(store: &mut Store, r: usize)
    requires
        old(store).wf(),
        call_ensures(clear, (store,), r),
    ensures
        final(store)@ == (StoreView { plan: final(store)@.plan, ..old(store)@ }),
        final(store)@.plan.len() == 0,
        r == old(store)@.plan.len(),
{
}

/// A detachment makes the Ticket that the text names Local again under the
/// Display ID it goes back to, puts the identity that it had on record, and
/// answers with both. A refusal changes nothing.
pub proof fn law_detaching(
    store: &mut Store,
    text: &str,
    now: &str,
    r: Result<DetachReport, DetachError>,
)
    requires
        old(store).wf(),
        call_ensures(detach, (store, text, now), r),
    ensures
        r is Err ==> final(store)@ == old(store)@,
        r is Ok ==> exists|id: Seq<char>|
            #![trigger old(store)@.item(id)]
            {
                let v = old(store)@;
                let after = final(store)@;
                let before = v.item(id);
                let item = after.item(id);
                &&& goes_by(v, id, text@)
                &&& before.item_class == ItemClass::Ticket
                &&& before.origin == Origin::Backend
                &&& !has_unsettled(v, id)
                &&& item.origin == Origin::Local
                &&& goes_back_to(v, before, item.display_id)
                &&& items_kept_but(v, after, id)
                &&& after.mutations == v.mutations
                &&& after.former_identities.len() == v.former_identities.len() + 1
                &&& after.former_identities.last().item_id == id
                &&& before.backend_key == Some(after.former_identities.last().backend_key)
                &&& r->Ok_0.item_class == ItemClass::Ticket
                &&& r->Ok_0.backend_display_id@ == before.display_id
                &&& r->Ok_0.local_display_id@ == item.display_id
                &&& before.backend_key == Some(r->Ok_0.backend_key@)
            },
{
    if r is Ok {
        let v = old(store)@;
        let id = v.resolved(text@)->0;
        crate::repository::detach::lemma_resolved_has(v, text@);
        law_what_a_text_names(v, text@, id);
        law_what_detaching_writes(v, text@, id, now@);
        law_when_detaching_is_refused(v, text@, id);
        assert(v.item(id).origin == Origin::Backend);
    }
}

/// A Ticket that is created under an ID drawn for it has all that was asked for
/// too, and is answered under that ID, which is new.
pub proof fn law_creating_a_ticket_under_a_drawn_id(
    store: &mut Store,
    now: &str,
    rng: &mut rand::rngs::StdRng,
    input: CreateLocalTicketInput<'_>,
    r: Result<CreatedTicket, CreateError>,
)
    requires
        old(store).wf(),
        call_ensures(create_local_ticket, (store, now, rng, input), r),
    ensures
        r is Err ==> final(store)@ == old(store)@,
        !can_number(old(store)@) || (input.parent_id is Some && !is_epic(
            old(store)@,
            input.parent_id->0@,
        )) ==> r is Err,
        r is Ok ==> {
            let answer = r->Ok_0;
            let stored = final(store)@.item(answer.id@);
            &&& created_beside(old(store)@, final(store)@)
            &&& !is_taken(old(store)@, answer.id@)
            &&& final(store)@.has(answer.id@)
            &&& stored.item_class == ItemClass::Ticket
            &&& stored.ticket_kind == Some(input.kind)
            &&& stored.priority == Some(input.priority)
            &&& stored.title == input.title@
            &&& stored.body == input.body@
            &&& input.parent_id is Some ==> stored.container_id == Some(input.parent_id->0@)
            &&& input.parent_id is None ==> stored.container_id is None
            &&& answer.display_id@ == stored.display_id
            &&& answer.kind == input.kind
            &&& answer.priority == input.priority
            &&& answer.title@ == input.title@
        },
{
    let v = old(store)@;
    if r is Ok {
        let id = r->Ok_0.id@;
        law_when_a_ticket_is_created(v, input, id, now@);
        lemma_has_row(v, id);
        law_a_ticket_is_created_as_asked(v, input, id, now@, r->Ok_0);
        law_creating_a_ticket_changes_nothing_else(v, input, id, now@);
    }
}

/// An Epic that is created under an ID drawn for it has all that was asked for
/// too, and is answered under that ID, which is new.
pub proof fn law_creating_an_epic_under_a_drawn_id(
    store: &mut Store,
    now: &str,
    rng: &mut rand::rngs::StdRng,
    input: CreateLocalEpicInput<'_>,
    r: Result<CreatedEpic, CreateError>,
)
    requires
        old(store).wf(),
        call_ensures(create_local_epic, (store, now, rng, input), r),
    ensures
        r is Err ==> final(store)@ == old(store)@,
        !can_number(old(store)@) ==> r is Err,
        r is Ok ==> {
            let answer = r->Ok_0;
            let stored = final(store)@.item(answer.id@);
            &&& created_beside(old(store)@, final(store)@)
            &&& !is_taken(old(store)@, answer.id@)
            &&& stored.item_class == ItemClass::Epic
            &&& stored.title == input.title@
            &&& stored.body == input.body@
            &&& answer.display_id@ == stored.display_id
            &&& answer.title@ == input.title@
        },
{
    let v = old(store)@;
    if r is Ok {
        let id = r->Ok_0.id@;
        law_when_an_epic_is_created(v, input, id, now@);
        lemma_has_row(v, id);
        law_an_epic_is_created_as_asked(v, input, id, now@, r->Ok_0);
        law_creating_an_epic_changes_nothing_else(v, input, id, now@);
    }
}

} // verus!
