//! What every store holds to, and what the calls that fill its tables leave
//! behind.

use vstd::prelude::*;

use crate::domain::{ItemClass, ItemStatus, Lifecycle, MutationState, Priority};
use crate::laws::admission::{
    close_was_rejected, container_fits, fits_its_class, goes_back, identity_fits, is_taken,
    key_fits, law_when_a_row_is_replaced, law_which_items_are_admitted,
    law_which_mutations_are_admitted, law_which_new_dependencies_are_taken,
    law_which_new_items_are_taken, law_which_new_mutations_are_taken, name_fits, reason_fits,
    work_fits,
};
use crate::laws::dependencies::waits_for;
use crate::laws::facts::{
    is_epic, items_kept_but, lemma_one_row, lemma_row, lemma_row_has, makes_object, unsettled,
    unused_name,
};
use crate::laws::log::{is_of_class, lemma_of_class, may_be};
use crate::laws::next::urgency;
use crate::laws::promotion::key_used;
use crate::laws::reports::is_display_id;
use crate::mutations::{withdrawal_candidates, WithdrawalCandidate};
use crate::payload::MutationPayload;
use crate::promotion::recovery::{
    capture_recovery_mappings, lemma_mutation_target, RecoveryPromotionError,
    RecoveryPromotionMapping,
};
use crate::rows::{
    Alias, Dependency, ExternalBlocker, ExternalBlockerView, FormerIdentity, Item, ItemView,
    Mutation, MutationView,
};
use crate::select::lemma_filter_contains;
use crate::sequences::{next, SequenceError};
use crate::tables::{Fault, Store, StoreView};
use crate::text::{decimal, folded, text_le};

verus! {

/// In every store an ID, a Display ID and a Backend identity are one Item's
/// alone, Display IDs whatever their case; Items stand in creation order; each
/// fits its class; and what contains one is an Epic.
pub proof fn law_what_the_items_of_a_store_hold_to(v: StoreView, i: int, j: int)
    requires
        v.wf(),
        0 <= i < j < v.items.len(),
    ensures
        v.items[i].id != v.items[j].id,
        folded(v.items[i].display_id) != folded(v.items[j].display_id),
        v.items[i].created_seq <= v.items[j].created_seq,
        v.items[i].backend_kind is Some && v.items[i].backend_kind == v.items[j].backend_kind
            && v.items[i].backend_key is Some ==> v.items[i].backend_key != v.items[j].backend_key,
        fits_its_class(v.items[i]) && reason_fits(v.items[i]) && identity_fits(v.items[i])
            && work_fits(v.items[i]),
        v.items[i].container_id is Some ==> is_epic(v, v.items[i].container_id->0),
{
    lemma_row_has(v, i);
    lemma_row_has(v, j);
    law_which_items_are_admitted(v.items[i]);
    assert(!crate::tables::same_identity(v.items[i], v.items[j]));
    if v.items[i].container_id is Some {
        crate::laws::edits::lemma_epic(v, v.items[i].container_id->0);
    }
}

/// In every store an Alias is one Item's, and reads as no other and as no
/// Display ID, whatever the case.
pub proof fn law_what_the_aliases_of_a_store_hold_to(v: StoreView, i: int, j: int, k: int)
    requires
        v.wf(),
        0 <= i < j < v.aliases.len(),
        0 <= k < v.items.len(),
    ensures
        folded(v.aliases[i].value) != folded(v.aliases[j].value),
        folded(v.aliases[i].value) != folded(v.items[k].display_id),
        is_taken(v, v.aliases[i].item_id),
{
    let id = v.aliases[i].item_id;
    assert(v.has(id));
    lemma_row(v, id);
    assert(v.items[v.at(id)].id == id);
}

/// In every store the log is in the order of its sequences, none of which is
/// there twice; each Mutation is about an Item that is there in its class; and
/// what is under way or abandoned is a Promotion.
pub proof fn law_what_the_log_of_a_store_holds_to(v: StoreView, i: int, j: int)
    requires
        v.wf(),
        0 <= i < j < v.mutations.len(),
    ensures
        v.mutations[i].sequence < v.mutations[j].sequence,
        is_of_class(v, v.mutations[i].item_id, v.mutations[i].item_class),
        may_be(v.mutations[i], v.mutations[i].state),
        v.mutations[i].state == MutationState::Failed ==> v.mutations[i].failure_json is Some,
{
    lemma_of_class(v, v.mutations[i].item_id, v.mutations[i].item_class);
    assert(v.mutations[i].admitted());
    law_which_mutations_are_admitted(v.mutations[i]);
}

/// In every store External Blockers stand by the time they were made, and by
/// their ID where that is the same; a member of the Plan is a Ticket and is
/// there once; and what was an Item's Backend identity is no other Item's.
pub proof fn law_what_else_a_store_holds_to(v: StoreView, i: int, j: int)
    requires
        v.wf(),
        0 <= i < j,
    ensures
        j < v.external_blockers.len() ==> ({
            let a = v.external_blockers[i];
            let b = v.external_blockers[j];
            &&& text_le(a.created_at, b.created_at)
            &&& a.created_at == b.created_at ==> text_le(a.id, b.id)
        }),
        j < v.plan.len() ==> v.plan[i] != v.plan[j] && is_of_class(v, v.plan[i], ItemClass::Ticket),
        i < v.former_identities.len() && j < v.items.len() && v.items[j].backend_kind == Some(
            v.former_identities[i].backend_kind,
        ) && v.items[j].backend_key == Some(v.former_identities[i].backend_key) ==> v.items[j].id
            == v.former_identities[i].item_id,
{
    if j < v.external_blockers.len() {
        assert(crate::tables::blocker_le(v.external_blockers[i], v.external_blockers[j]));
        crate::text::lemma_text_le_total(
            v.external_blockers[i].created_at,
            v.external_blockers[i].created_at,
        );
    }
    if j < v.plan.len() {
        lemma_of_class(v, v.plan[i], ItemClass::Ticket);
    }
}

/// A new Item is taken exactly where nothing is against it, and is then one more
/// beside those that there were.
pub proof fn law_inserting_an_item(store: &mut Store, item: Item, r: Result<(), Fault>)
    requires
        old(store).wf(),
        call_ensures(Store::insert_item, (store, item), r),
    ensures
        (r is Ok) == (fits_its_class(item@) && reason_fits(item@) && identity_fits(item@)
            && work_fits(item@) && !is_taken(old(store)@, item@.id) && unused_name(
            old(store)@,
            item@.display_id,
        ) && key_fits(old(store)@, item@) && container_fits(old(store)@, item@)),
        r is Err ==> final(store)@ == old(store)@,
        r is Ok ==> final(store)@ == (StoreView { items: final(store)@.items, ..old(store)@ }),
        r is Ok ==> final(store)@.items.len() == old(store)@.items.len() + 1,
        r is Ok ==> forall|x: ItemView| #[trigger]
            final(store)@.items.contains(x) == (old(store)@.items.contains(x) || x == item@),
{
    law_which_items_are_admitted(item@);
    law_which_new_items_are_taken(old(store)@, item@);
    if r is Ok {
        crate::keep::lemma_place(old(store)@.items, item@.created_seq);
        crate::keep::lemma_insert_contains(
            old(store)@.items,
            crate::tables::place(old(store)@.items, item@.created_seq),
            item@,
        );
    }
}

/// A new Alias is taken exactly for an Item that is there, under a name that
/// nothing goes by.
pub proof fn law_inserting_an_alias(store: &mut Store, alias: Alias, r: Result<(), Fault>)
    requires
        old(store).wf(),
        call_ensures(Store::insert_alias, (store, alias), r),
    ensures
        (r is Ok) == (is_taken(old(store)@, alias@.item_id) && unused_name(
            old(store)@,
            alias@.value,
        )),
        r is Err ==> final(store)@ == old(store)@,
        r is Ok ==> final(store)@ == (StoreView {
            aliases: old(store)@.aliases.push(alias@),
            ..old(store)@
        }),
{
    crate::laws::admission::lemma_taken(old(store)@, alias@.item_id);
}

/// A new Dependency is taken exactly between Items, where it is not there and
/// closes no cycle.
pub proof fn law_inserting_a_dependency(store: &mut Store, d: Dependency, r: Result<(), Fault>)
    requires
        old(store).wf(),
        call_ensures(Store::insert_dependency, (store, d), r),
    ensures
        (r is Ok) == (is_taken(old(store)@, d@.blocking_id) && is_taken(old(store)@, d@.blocked_id)
            && !waits_for(old(store)@, d@.blocked_id, d@.blocking_id) && !crate::graph::connected(
            crate::tables::waits(old(store)@.dependencies),
            d@.blocking_id,
            d@.blocked_id,
        )),
        r is Err ==> final(store)@ == old(store)@,
        r is Ok ==> final(store)@ == (StoreView {
            dependencies: old(store)@.dependencies.push(d@),
            ..old(store)@
        }),
{
    law_which_new_dependencies_are_taken(old(store)@, d@);
}

/// A new External Blocker is taken exactly for an Item that is there, and is
/// then one more beside those that there were.
pub proof fn law_inserting_an_external_blocker(
    store: &mut Store,
    blocker: ExternalBlocker,
    r: Result<(), Fault>,
)
    requires
        old(store).wf(),
        call_ensures(Store::insert_external_blocker, (store, blocker), r),
    ensures
        (r is Ok) == is_taken(old(store)@, blocker@.item_id),
        r is Err ==> final(store)@ == old(store)@,
        r is Ok ==> final(store)@ == (StoreView {
            external_blockers: final(store)@.external_blockers,
            ..old(store)@
        }),
        r is Ok ==> forall|x: ExternalBlockerView| #[trigger]
            final(store)@.external_blockers.contains(x) == (old(
                store,
            )@.external_blockers.contains(x) || x == blocker@),
{
    crate::laws::admission::lemma_taken(old(store)@, blocker@.item_id);
    if r is Ok {
        crate::keep::lemma_blocker_place(old(store)@.external_blockers, blocker@);
        crate::keep::lemma_insert_contains(
            old(store)@.external_blockers,
            crate::tables::blocker_place(old(store)@.external_blockers, blocker@),
            blocker@,
        );
    }
}

/// A new Mutation is taken exactly where one of its kind can be in its state, it
/// says why it failed if it did, its sequence is new and its Item is there.
pub proof fn law_inserting_a_mutation(store: &mut Store, m: Mutation, r: Result<(), Fault>)
    requires
        old(store).wf(),
        call_ensures(Store::insert_mutation, (store, m), r),
    ensures
        (r is Ok) == (may_be(m@, m@.state) && (m@.state == MutationState::Failed
            ==> m@.failure_json is Some) && is_of_class(old(store)@, m@.item_id, m@.item_class)
            && forall|i: int|
            0 <= i < old(store)@.mutations.len() ==> (
            #[trigger] old(store)@.mutations[i]).sequence != m@.sequence),
        r is Err ==> final(store)@ == old(store)@,
        r is Ok ==> final(store)@ == (StoreView {
            mutations: final(store)@.mutations,
            ..old(store)@
        }),
        r is Ok ==> forall|x: MutationView| #[trigger]
            final(store)@.mutations.contains(x) == (old(store)@.mutations.contains(x) || x == m@),
{
    law_which_mutations_are_admitted(m@);
    law_which_new_mutations_are_taken(old(store)@, m@);
}

/// A former identity is recorded exactly for an Item that is there, where no
/// other Item has or had it.
pub proof fn law_inserting_a_former_identity(
    store: &mut Store,
    former: FormerIdentity,
    r: Result<(), Fault>,
)
    requires
        old(store).wf(),
        call_ensures(Store::insert_former_identity, (store, former), r),
    ensures
        (r is Ok) == (is_taken(old(store)@, former@.item_id) && !key_used(
            old(store)@,
            former@.item_id,
            former@.backend_kind,
            former@.backend_key,
        )),
        r is Err ==> final(store)@ == old(store)@,
        r is Ok ==> final(store)@ == (StoreView {
            former_identities: old(store)@.former_identities.push(former@),
            ..old(store)@
        }),
{
    crate::laws::admission::lemma_taken(old(store)@, former@.item_id);
}

/// A row is replaced exactly where nothing is against it; the others stay.
pub proof fn law_replacing_an_item(store: &mut Store, item: Item, r: Result<(), Fault>)
    requires
        old(store).wf(),
        call_ensures(Store::replace_item, (store, item), r),
    ensures
        (r is Ok) == ({
            let v = old(store)@;
            let before = v.item(item@.id);
            &&& is_taken(v, item@.id)
            &&& before.lifecycle == Lifecycle::Done && item@.lifecycle == Lifecycle::Open
                ==> close_was_rejected(v, item@) || goes_back(v, before, item@)
            &&& fits_its_class(item@) && reason_fits(item@) && identity_fits(item@) && work_fits(
                item@,
            )
            &&& item@.item_class == before.item_class
            &&& item@.created_seq == before.created_seq
            &&& key_fits(v, item@)
            &&& name_fits(v, item@)
            &&& container_fits(v, item@)
        }),
        r is Err ==> final(store)@ == old(store)@,
        r is Ok ==> final(store)@ == (StoreView { items: final(store)@.items, ..old(store)@ })
            && items_kept_but(old(store)@, final(store)@, item@.id) && final(store)@.item(item@.id)
            == item@,
{
    law_which_items_are_admitted(item@);
    law_when_a_row_is_replaced(old(store)@, item@);
    if r is Ok {
        lemma_one_row(old(store)@, final(store)@, item@.id, item@);
    }
}

/// A counter counts on by one, and the others stay; a name that is none of the
/// three is refused.
pub proof fn law_counting(store: &mut Store, name: &'static str, r: Result<i64, SequenceError>)
    requires
        old(store).wf(),
        call_ensures(next, (store, name), r),
    ensures
        ({
            let v = old(store)@;
            let after = final(store)@;
            &&& r is Err ==> after == v
            &&& r is Ok ==> {
                ||| name@ == "item_created_seq"@ && v.item_created_seq == Some(r->Ok_0 - 1)
                    && after == StoreView { item_created_seq: Some(r->Ok_0 as int), ..v }
                ||| name@ == "display_seq"@ && v.display_seq == Some(r->Ok_0 - 1) && after
                    == StoreView { display_seq: Some(r->Ok_0 as int), ..v }
                ||| name@ == "mutation_seq"@ && v.mutation_seq == Some(r->Ok_0 - 1) && after
                    == StoreView { mutation_seq: Some(r->Ok_0 as int), ..v }
            }
        }),
{
}

/// A payload holds what it is about, each under its own name.
pub proof fn law_what_a_payload_holds(payload: MutationPayload)
    ensures
        match payload {
            MutationPayload::UpdateTitleBody(p) => payload.pairs() == seq![
                ("title"@, p.title@),
                ("body"@, p.body@),
            ],
            MutationPayload::EpicRef(p) => payload.pairs() == seq![("epic_id"@, p.epic_id@)],
            MutationPayload::DependencyRef(p) => payload.pairs() == seq![
                ("blocking_id"@, p.blocking_id@),
            ],
            MutationPayload::ItemStatus(p) => payload.pairs() == seq![
                (
                    "status"@,
                    if p.status == ItemStatus::Done {
                        "done"@
                    } else if p.status == ItemStatus::Active {
                        "active"@
                    } else {
                        "open"@
                    },
                ),
            ],
            MutationPayload::Promotion(p) => payload.pairs() == seq![
                ("title"@, p.title@),
                ("body"@, p.body@),
                ("backend_kind"@, p.backend_kind@),
            ],
        },
{
}

/// A Priority is written as P and its place from the most urgent on.
pub proof fn law_a_priority_is_written_by_its_place(priority: Priority)
    ensures
        priority.name() == "P"@ + decimal(urgency(priority)),
{
    reveal_strlit("P");
    reveal_strlit("P0");
    reveal_strlit("P1");
    reveal_strlit("P2");
    reveal_strlit("P3");
    reveal_strlit("P4");
    reveal_with_fuel(crate::text::decimal_nat, 2);
    assert(priority.name() =~= "P"@ + decimal(urgency(priority)));
}

/// Whether a candidate is the Mutation.
pub open spec fn is_candidate(c: WithdrawalCandidate, m: MutationView) -> bool {
    &&& c.sequence == m.sequence
    &&& c.state == m.state
    &&& c.mutation_type == m.mutation_type
    &&& c.item_id@ == m.item_id
    &&& c.payload_json@ == m.payload_json
}

/// Whether one of the candidates is the Mutation.
pub open spec fn has_candidate(list: Seq<WithdrawalCandidate>, m: MutationView) -> bool {
    exists|k: int| 0 <= k < list.len() && is_candidate(#[trigger] list[k], m)
}

/// Whether the candidate is a Mutation that waits and makes no object.
pub open spec fn may_be_withdrawn(v: StoreView, c: WithdrawalCandidate) -> bool {
    exists|i: int|
        0 <= i < v.mutations.len() && crate::laws::facts::in_queue(
            (#[trigger] v.mutations[i]).state,
        ) && !makes_object(v.mutations[i].mutation_type) && is_candidate(c, v.mutations[i])
}

/// What a withdrawal may take along are the Mutations that wait and make no
/// object, all of them and no others.
pub proof fn law_listing_what_may_be_withdrawn(store: &Store, r: Vec<WithdrawalCandidate>)
    requires
        call_ensures(withdrawal_candidates, (store,), r),
    ensures
        forall|i: int|
            0 <= i < store@.mutations.len() && crate::laws::facts::in_queue(
                (#[trigger] store@.mutations[i]).state,
            ) && !makes_object(store@.mutations[i].mutation_type) ==> has_candidate(
                r@,
                store@.mutations[i],
            ),
        forall|k: int| 0 <= k < r@.len() ==> may_be_withdrawn(store@, #[trigger] r@[k]),
{
    let v = store@;
    let cond = crate::mutations::withdrawable();
    let rows = v.mutations.filter(cond);
    lemma_filter_contains(v.mutations, cond);
    assert forall|i: int|
        0 <= i < v.mutations.len() && crate::laws::facts::in_queue(
            (#[trigger] v.mutations[i]).state,
        ) && !makes_object(v.mutations[i].mutation_type) implies has_candidate(
        r@,
        v.mutations[i],
    ) by {
        assert(cond(v.mutations[i]));
        let k = choose|k: int| 0 <= k < rows.len() && rows[k] == v.mutations[i];
        assert(r@[k].stands_for(rows[k]));
    }
    assert forall|k: int| 0 <= k < r@.len() implies may_be_withdrawn(v, #[trigger] r@[k]) by {
        assert(r@[k].stands_for(rows[k]));
        let i = choose|i: int| 0 <= i < v.mutations.len() && v.mutations[i] == rows[k];
        assert(cond(v.mutations[i]));
    }
}

/// Whether a mapping is of the Promotion, with the Display ID its Item has.
pub open spec fn is_mapping(v: StoreView, x: RecoveryPromotionMapping, m: MutationView) -> bool {
    &&& x.sequence == m.sequence
    &&& x.item_id@ == m.item_id
    &&& x.item_class == m.item_class
    &&& is_display_id(v, m.item_id, x.outgoing_display_id@)
}

/// Whether one of the mappings is of the Promotion.
pub open spec fn has_mapping(
    v: StoreView,
    list: Seq<RecoveryPromotionMapping>,
    m: MutationView,
) -> bool {
    exists|k: int| 0 <= k < list.len() && is_mapping(v, #[trigger] list[k], m)
}

/// Whether the mapping is of an unsettled Promotion.
pub open spec fn is_open(v: StoreView, x: RecoveryPromotionMapping) -> bool {
    exists|i: int|
        0 <= i < v.mutations.len() && makes_object((#[trigger] v.mutations[i]).mutation_type)
            && unsettled(v.mutations[i].state) && is_mapping(v, x, v.mutations[i])
}

/// What is captured are the unsettled Promotions, all of them and no others,
/// each with the Display ID that its Item has.
pub proof fn law_capturing_mappings(
    store: &Store,
    r: Result<Vec<RecoveryPromotionMapping>, RecoveryPromotionError>,
)
    requires
        store.wf(),
        call_ensures(capture_recovery_mappings, (store,), r),
    ensures
        r is Ok ==> forall|i: int|
            0 <= i < store@.mutations.len() && makes_object(
                (#[trigger] store@.mutations[i]).mutation_type,
            ) && unsettled(store@.mutations[i].state) ==> has_mapping(
                store@,
                r->Ok_0@,
                store@.mutations[i],
            ),
        r is Ok ==> forall|k: int| 0 <= k < r->Ok_0@.len() ==> is_open(store@, #[trigger] r->Ok_0@[k]),
{
    if r is Ok {
        let v = store@;
        let list = r->Ok_0@;
        let cond = crate::mutations::awaited_promotion();
        let rows = v.mutations.filter(cond);
        lemma_filter_contains(v.mutations, cond);
        assert forall|k: int| 0 <= k < list.len() implies is_mapping(
            v,
            list[k],
            #[trigger] rows[k],
        ) by {
            assert(list[k].shows(v, rows[k]));
            let i = choose|i: int| 0 <= i < v.mutations.len() && v.mutations[i] == rows[k];
            lemma_mutation_target(v, i);
            lemma_row(v, rows[k].item_id);
            assert(v.items[v.at(rows[k].item_id)].id == rows[k].item_id);
        }
        assert forall|i: int|
            0 <= i < v.mutations.len() && makes_object((#[trigger] v.mutations[i]).mutation_type)
                && unsettled(v.mutations[i].state) implies has_mapping(
            v,
            list,
            v.mutations[i],
        ) by {
            assert(cond(v.mutations[i]));
            let k = choose|k: int| 0 <= k < rows.len() && rows[k] == v.mutations[i];
            assert(is_mapping(v, list[k], rows[k]));
        }
        assert forall|k: int| 0 <= k < list.len() implies is_open(v, #[trigger] list[k]) by {
            assert(is_mapping(v, list[k], rows[k]));
            let i = choose|i: int| 0 <= i < v.mutations.len() && v.mutations[i] == rows[k];
            assert(cond(v.mutations[i]));
        }
    }
}

} // verus!
