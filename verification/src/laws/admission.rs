//! What a row must hold to before the store takes it, and what it may be
//! replaced by.

use vstd::prelude::*;

use crate::domain::{
    ItemClass, Lifecycle, MutationState, MutationType, Origin, SelectionState, WorkState,
};
use crate::graph::connected;
use crate::laws::facts::{is_epic, lemma_row, lemma_row_has, unused_name};
use crate::laws::log::{is_of_class, may_be};
use crate::laws::promotion::key_used;
use crate::load::{dependency_fault, item_fault, mutation_fault, with_mutation};
use crate::payload::json_member;
use crate::repository::status::StatusChangedItem;
use crate::revise::revision_fault;
use crate::rows::{DependencyView, ItemView, MutationView};
use crate::tables::{keys, waits, Fault, StoreView};
use crate::text::folded;

verus! {

/// Whether an Item has what its class asks for: a Ticket a kind, a place in the
/// selection and, once it is out of triage, a Priority; an Epic none of these.
pub open spec fn fits_its_class(item: ItemView) -> bool {
    if item.item_class == ItemClass::Epic {
        item.ticket_kind is None && item.priority is None && item.selection_state is None
    } else {
        item.ticket_kind is Some && item.selection_state is Some && (item.priority is Some
            || item.selection_state->0 == SelectionState::Triage)
    }
}

/// Whether an Item that gives a reason for its end has come to it.
pub open spec fn reason_fits(item: ItemView) -> bool {
    item.closing_reason is Some ==> item.lifecycle == Lifecycle::Done && item.closing_reason->0
        != Seq::<char>::empty()
}

/// Whether an Item has a Backend identity exactly where it stands on a Backend.
pub open spec fn identity_fits(item: ItemView) -> bool {
    if item.origin == Origin::Backend {
        item.backend_kind is Some && item.backend_key is Some
    } else {
        item.backend_kind is None && item.backend_key is None && item.local_display_id is None
    }
}

/// Whether a Ticket that is worked on was accepted.
pub open spec fn work_fits(item: ItemView) -> bool {
    item.item_class == ItemClass::Ticket && item.work_state == WorkState::Active
        ==> item.selection_state == Some(SelectionState::Accepted)
}

/// An Item is admitted exactly where it fits its class, its reason, identity
/// and work fit, and the store never breaks that.
pub proof fn law_which_items_are_admitted(item: ItemView)
    ensures
        item.admitted() == (fits_its_class(item) && reason_fits(item) && identity_fits(item)
            && work_fits(item)),
{
    if item.closing_reason is Some {
        if item.closing_reason->0.len() == 0 {
            assert(item.closing_reason->0 =~= Seq::<char>::empty());
        }
    }
}

/// A Mutation is admitted exactly where one of its kind can be in its state,
/// and where it failed says why.
pub proof fn law_which_mutations_are_admitted(m: MutationView)
    ensures
        m.admitted() == (may_be(m, m.state) && (m.state == MutationState::Failed
            ==> m.failure_json is Some)),
{
}

proof fn lemma_epics(v: StoreView, id: Seq<char>)
    ensures
        v.has_epic(id) == is_epic(v, id),
{
    if v.has_epic(id) {
        let i = choose|i: int|
            0 <= i < keys(v.items).len() && keys(v.items)[i] == (id, ItemClass::Epic);
        assert(v.items[i].id == id);
    }
    if is_epic(v, id) {
        let i = choose|i: int|
            0 <= i < v.items.len() && (#[trigger] v.items[i]).id == id && v.items[i].item_class
                == ItemClass::Epic;
        assert(keys(v.items)[i] == (id, ItemClass::Epic));
    }
}

/// Whether the ID is that of an Item.
pub open spec fn is_taken(v: StoreView, id: Seq<char>) -> bool {
    exists|i: int| 0 <= i < v.items.len() && (#[trigger] v.items[i]).id == id
}

pub proof fn lemma_taken(v: StoreView, id: Seq<char>)
    requires
        v.wf(),
    ensures
        v.has(id) == is_taken(v, id),
{
    if v.has(id) {
        lemma_row(v, id);
        assert(v.items[v.at(id)].id == id);
    }
    if is_taken(v, id) {
        let i = choose|i: int| 0 <= i < v.items.len() && (#[trigger] v.items[i]).id == id;
        lemma_row_has(v, i);
    }
}

/// Whether the container that an Item names, if it names one, is an Epic.
pub open spec fn container_fits(v: StoreView, item: ItemView) -> bool {
    item.container_id is Some ==> is_epic(v, item.container_id->0)
}

/// Whether the Backend identity that an Item has, if it has one, is no other
/// Item's and never was.
pub open spec fn key_fits(v: StoreView, item: ItemView) -> bool {
    item.backend_kind is Some && item.backend_key is Some ==> !key_used(
        v,
        item.id,
        item.backend_kind->0,
        item.backend_key->0,
    )
}

/// A new Item is taken exactly where it is admitted, its ID, its Display ID and
/// its identity are unused, and its container is an Epic.
pub proof fn law_which_new_items_are_taken(v: StoreView, item: ItemView)
    requires
        v.wf(),
    ensures
        (item_fault(v, item) is None) == (item.admitted() && !is_taken(v, item.id) && unused_name(
            v,
            item.display_id,
        ) && key_fits(v, item) && container_fits(v, item)),
        item_fault(v, item) == Some(Fault::Check) <==> !item.admitted(),
        item_fault(v, item) == Some(Fault::IdTaken) ==> is_taken(v, item.id),
        item_fault(v, item) == Some(Fault::DisplayIdTaken) ==> !unused_name(v, item.display_id),
        item_fault(v, item) == Some(Fault::BackendIdentityTaken) ==> !key_fits(v, item),
        item_fault(v, item) == Some(Fault::ForeignKey) ==> !container_fits(v, item),
{
    lemma_taken(v, item.id);
    if item.container_id is Some {
        lemma_epics(v, item.container_id->0);
    }
    lemma_key_fits(v, item);
}

proof fn lemma_key_fits(v: StoreView, item: ItemView)
    ensures
        crate::keep::identity_free(v, item.id, item.backend_kind, item.backend_key) == key_fits(
            v,
            item,
        ),
{
}

/// A new Dependency is taken exactly between two Items, where it is not there
/// and the blocking one does not wait for the blocked one.
pub proof fn law_which_new_dependencies_are_taken(v: StoreView, d: DependencyView)
    requires
        v.wf(),
    ensures
        (dependency_fault(v, d) is None) == (is_taken(v, d.blocking_id) && is_taken(v, d.blocked_id)
            && !crate::laws::dependencies::waits_for(v, d.blocked_id, d.blocking_id) && !connected(
            waits(v.dependencies),
            d.blocking_id,
            d.blocked_id,
        )),
        dependency_fault(v, d) == Some(Fault::Cycle) ==> connected(
            waits(v.dependencies),
            d.blocking_id,
            d.blocked_id,
        ),
        dependency_fault(v, d) == Some(Fault::ForeignKey) <==> !(is_taken(v, d.blocking_id)
            && is_taken(v, d.blocked_id)),
{
    lemma_taken(v, d.blocking_id);
    lemma_taken(v, d.blocked_id);
    crate::laws::dependencies::lemma_waits(v, d.blocked_id, d.blocking_id);
}

/// A new Mutation is taken exactly where it is admitted, its sequence is unused
/// and its Item is there in its class; and then it is one more in the log.
pub proof fn law_which_new_mutations_are_taken(v: StoreView, m: MutationView)
    requires
        v.wf(),
    ensures
        (mutation_fault(v, m) is None) == (m.admitted() && is_of_class(v, m.item_id, m.item_class)
            && forall|i: int|
            0 <= i < v.mutations.len() ==> (#[trigger] v.mutations[i]).sequence != m.sequence),
        mutation_fault(v, m) is None ==> {
            &&& with_mutation(v, m).mutations.len() == v.mutations.len() + 1
            &&& forall|n: MutationView| #[trigger]
                with_mutation(v, m).mutations.contains(n) == (v.mutations.contains(n) || n == m)
            &&& with_mutation(v, m) == StoreView { mutations: with_mutation(v, m).mutations, ..v }
        },
{
    crate::laws::log::lemma_of_class(v, m.item_id, m.item_class);
    crate::keep::lemma_mutation_place(v.mutations, m.sequence);
    crate::keep::lemma_insert_contains(
        v.mutations,
        crate::tables::mutation_place(v.mutations, m.sequence),
        m,
    );
}

/// Whether the close of an Item was queued for the Backend and failed there.
pub open spec fn close_was_rejected(v: StoreView, item: ItemView) -> bool {
    exists|i: int|
        {
            &&& 0 <= i < v.mutations.len()
            &&& (#[trigger] v.mutations[i]).item_id == item.id
            &&& v.mutations[i].item_class == item.item_class
            &&& v.mutations[i].mutation_type == MutationType::SetItemStatus
            &&& v.mutations[i].state == MutationState::Failed
            &&& json_member(v.mutations[i].payload_json, "status"@) == Some("done"@)
        }
}

/// Whether a Local Item goes back to a Backend under an identity that it had.
pub open spec fn goes_back(v: StoreView, before: ItemView, item: ItemView) -> bool {
    &&& before.origin == Origin::Local
    &&& item.origin == Origin::Backend
    &&& exists|i: int|
        0 <= i < v.former_identities.len() && (#[trigger] v.former_identities[i]).item_id == item.id
            && item.backend_kind == Some(v.former_identities[i].backend_kind) && item.backend_key
            == Some(v.former_identities[i].backend_key)
}

/// Whether no other Item goes by the Display ID, and no Alias reads as it.
pub open spec fn name_fits(v: StoreView, item: ItemView) -> bool {
    &&& forall|i: int|
        0 <= i < v.items.len() && (#[trigger] v.items[i]).id != item.id ==> folded(
            v.items[i].display_id,
        ) != folded(item.display_id)
    &&& forall|i: int|
        0 <= i < v.aliases.len() ==> folded((#[trigger] v.aliases[i]).value) != folded(
            item.display_id,
        )
}

/// A row is replaced exactly where it is there and the new one is admitted, of
/// the same class and the same place in creation order, under names that are
/// its own; and a done Item is opened only where its close was rejected or it
/// goes back to a Backend that it was on.
pub proof fn law_when_a_row_is_replaced(v: StoreView, item: ItemView)
    requires
        v.wf(),
    ensures
        (revision_fault(v, item) is None) == ({
            let before = v.item(item.id);
            &&& is_taken(v, item.id)
            &&& before.lifecycle == Lifecycle::Done && item.lifecycle == Lifecycle::Open
                ==> close_was_rejected(v, item) || goes_back(v, before, item)
            &&& item.admitted()
            &&& item.item_class == before.item_class
            &&& item.created_seq == before.created_seq
            &&& key_fits(v, item)
            &&& name_fits(v, item)
            &&& container_fits(v, item)
        }),
        revision_fault(v, item) == Some(Fault::DoneIsTerminal) ==> v.item(item.id).lifecycle
            == Lifecycle::Done && item.lifecycle == Lifecycle::Open && !close_was_rejected(v, item),
{
    lemma_taken(v, item.id);
    lemma_key_fits(v, item);
    if item.container_id is Some {
        lemma_epics(v, item.container_id->0);
    }
    let before = v.item(item.id);
    if goes_back(v, before, item) {
        let i = choose|i: int|
            0 <= i < v.former_identities.len() && (#[trigger] v.former_identities[i]).item_id
                == item.id && item.backend_kind == Some(v.former_identities[i].backend_kind)
                && item.backend_key == Some(v.former_identities[i].backend_key);
        assert(crate::revise::rebinds(item, v.former_identities[i]));
    }
    if close_was_rejected(v, item) {
        let i = choose|i: int|
            {
                &&& 0 <= i < v.mutations.len()
                &&& (#[trigger] v.mutations[i]).item_id == item.id
                &&& v.mutations[i].item_class == item.item_class
                &&& v.mutations[i].mutation_type == MutationType::SetItemStatus
                &&& v.mutations[i].state == MutationState::Failed
                &&& json_member(v.mutations[i].payload_json, "status"@) == Some("done"@)
            };
        assert(crate::revise::failed_close(item, v.mutations[i]));
    }
}

/// A change of status is answered with the Item's own Display ID, title and
/// class.
pub proof fn law_what_a_change_of_status_answers(answer: StatusChangedItem, item: ItemView)
    requires
        answer.shows(item),
    ensures
        answer.display_id@ == item.display_id,
        answer.title@ == item.title,
        answer.item_class == item.item_class,
{
}

} // verus!
