//! Taking an Item off its Backend.

use vstd::prelude::*;

use crate::domain::{BackendKind, BindingView, ItemClass, MutationType, Origin};
use crate::laws::facts::{items_kept_but, lemma_one_row, lemma_row, unsettled};
use crate::laws::log::is_called;
use crate::mutations::{binding, BindingFault};
use crate::payload::json_member;
use crate::repository::detach::{
    detach_refusal, detached, entangled, first_bound, next_detached_seq, own_alias, waits_on,
    without_alias, DetachFault,
};
use crate::rows::{AliasView, FormerIdentityView, ItemView, MutationView};
use crate::select::lemma_filter_contains;
use crate::tables::{waits, Fault, StoreView};
use crate::text::{decimal, folded};

verus! {

/// The Display ID that an Item goes back to: the one that it had, or the next
/// of the store's where that is not on record.
pub open spec fn goes_back_to(v: StoreView, item: ItemView, name: Seq<char>) -> bool {
    match item.local_display_id {
        Some(had) => name == had,
        None => v.display_prefix is Some && v.display_seq is Some && name == v.display_prefix->0
            + "-"@ + decimal(v.display_seq->0 + 1),
    }
}

/// Whether an Alias is the Item's own and reads as the name.
pub open spec fn gives_way(alias: AliasView, id: Seq<char>, name: Seq<char>) -> bool {
    alias.item_id == id && folded(alias.value) == folded(name)
}

/// The place in the history that comes after every other.
proof fn lemma_next_detached(formers: Seq<FormerIdentityView>)
    ensures
        forall|i: int|
            0 <= i < formers.len() ==> (#[trigger] formers[i]).detached_seq < next_detached_seq(
                formers,
            ),
        formers.len() == 0 ==> next_detached_seq(formers) == 1,
        formers.len() > 0 ==> exists|i: int|
            0 <= i < formers.len() && (#[trigger] formers[i]).detached_seq + 1 == next_detached_seq(
                formers,
            ),
    decreases formers.len(),
{
    if formers.len() > 0 {
        let rest = formers.drop_last();
        lemma_next_detached(rest);
        assert(formers[formers.len() - 1] == formers.last());
        assert forall|i: int| 0 <= i < formers.len() implies (#[trigger] formers[i]).detached_seq
            < next_detached_seq(formers) by {
            if i < rest.len() {
                assert(rest[i] == formers[i]);
            }
        }
        if !(formers.last().detached_seq >= next_detached_seq(rest) || formers.len() == 1) {
            let i = choose|i: int|
                0 <= i < rest.len() && (#[trigger] rest[i]).detached_seq + 1 == next_detached_seq(
                    rest,
                );
            assert(formers[i] == rest[i]);
        }
    }
}

/// A detachment makes the Item Local again under the Display ID it goes back
/// to, and leaves the rest of it alone. The identity that it had goes on
/// record, behind every other. An Alias of its own that the Display ID reads
/// as is one no more; every other stays. A Display ID is drawn only where none
/// was on record. Nothing else changes.
pub proof fn law_what_detaching_writes(v: StoreView, arg: Seq<char>, id: Seq<char>, now: Seq<char>)
    requires
        v.wf(),
        v.resolved(arg) == Some(id),
        v.has(id),
        detach_refusal(v, arg) is None,
    ensures
        ({
            let after = detached(v, id, now);
            let before = v.item(id);
            let item = after.item(id);
            &&& before.origin == Origin::Backend
            &&& goes_back_to(v, before, item.display_id)
            &&& item == ItemView {
                display_id: item.display_id,
                display_created_at: now,
                origin: Origin::Local,
                backend_kind: None,
                backend_key: None,
                local_display_id: None,
                updated_at: now,
                ..before
            }
            &&& items_kept_but(v, after, id)
            &&& after == StoreView {
                items: after.items,
                aliases: after.aliases,
                former_identities: after.former_identities,
                display_seq: after.display_seq,
                ..v
            }
            &&& before.local_display_id is Some ==> after.display_seq == v.display_seq
            &&& before.local_display_id is None ==> after.display_seq == Some(v.display_seq->0 + 1)
            &&& forall|a: AliasView| #[trigger]
                after.aliases.contains(a) == (v.aliases.contains(a) && !gives_way(
                    a,
                    id,
                    item.display_id,
                ))
            &&& after.former_identities.len() == v.former_identities.len() + 1
            &&& after.former_identities.drop_last() == v.former_identities
            &&& ({
                let left = after.former_identities.last();
                &&& before.backend_kind == Some(left.backend_kind)
                &&& before.backend_key == Some(left.backend_key)
                &&& left.item_id == id
                &&& left.backend_display_value == before.display_id
                &&& left.detached_at == now
                &&& forall|i: int|
                    0 <= i < v.former_identities.len() ==> (
                    #[trigger] v.former_identities[i]).detached_seq < left.detached_seq
                &&& v.former_identities.len() == 0 ==> left.detached_seq == 1
                &&& v.former_identities.len() > 0 ==> exists|i: int|
                    0 <= i < v.former_identities.len() && (
                    #[trigger] v.former_identities[i]).detached_seq + 1 == left.detached_seq
            })
        }),
{
    let after = detached(v, id, now);
    lemma_row(v, id);
    assert(v.item(id).admitted());
    lemma_one_row(v, after, id, after.items[v.at(id)]);
    lemma_next_detached(v.former_identities);
    assert(after.former_identities.drop_last() =~= v.former_identities);
    let name = after.item(id).display_id;
    assert forall|a: AliasView| #[trigger]
        after.aliases.contains(a) == (v.aliases.contains(a) && !gives_way(a, id, name)) by {
        lemma_alias_gone(v, id, name, a);
    }
}

proof fn lemma_alias_gone(v: StoreView, id: Seq<char>, name: Seq<char>, a: AliasView)
    requires
        v.wf(),
    ensures
        without_alias(v, id, name).aliases.contains(a) == (v.aliases.contains(a) && !gives_way(
            a,
            id,
            name,
        )),
{
    let left = without_alias(v, id, name).aliases;
    if exists|i: int| own_alias(v, id, name, i) {
        let i = choose|i: int| own_alias(v, id, name, i);
        assert(own_alias(v, id, name, i));
        if left.contains(a) {
            let k = choose|k: int| 0 <= k < left.len() && left[k] == a;
            let j = if k < i {
                k
            } else {
                k + 1
            };
            assert(v.aliases[j] == a);
            if gives_way(a, id, name) {
                assert(folded(v.aliases[i].value) == folded(v.aliases[j].value));
            }
        }
        if v.aliases.contains(a) && !gives_way(a, id, name) {
            let j = choose|j: int| 0 <= j < v.aliases.len() && v.aliases[j] == a;
            assert(j != i);
            if j < i {
                assert(left[j] == a);
            } else {
                assert(left[j - 1] == a);
            }
        }
    } else {
        if v.aliases.contains(a) {
            let j = choose|j: int| 0 <= j < v.aliases.len() && v.aliases[j] == a;
            assert(!own_alias(v, id, name, j));
        }
    }
}

/// Whether an unsettled Mutation is the Item's own or speaks of it.
pub open spec fn has_unsettled(v: StoreView, id: Seq<char>) -> bool {
    exists|i: int|
        0 <= i < v.mutations.len() && unsettled((#[trigger] v.mutations[i]).state) && concerns(
            v.mutations[i],
            id,
        )
}

/// Whether a Mutation is the Item's own, or joins a Ticket to it as an Epic, or
/// is about the wait of another Item for it.
pub open spec fn concerns(m: MutationView, id: Seq<char>) -> bool {
    ||| m.item_id == id
    ||| m.mutation_type == MutationType::AddTicketToEpic && json_member(m.payload_json, "epic_id"@)
        == Some(id)
    ||| (m.mutation_type == MutationType::AddDependency || m.mutation_type
        == MutationType::RemoveDependency) && json_member(m.payload_json, "blocking_id"@) == Some(id)
}

/// Whether an Item that waits for the one is bound for a Backend.
pub open spec fn bound_item_waits(v: StoreView, id: Seq<char>, i: int) -> bool {
    &&& 0 <= i < v.items.len()
    &&& waits_at(v, id, v.items[i].id)
    &&& binding(v, v.items[i].id) is Ok
    &&& binding(v, v.items[i].id)->Ok_0 != BindingView::Local
}

/// Whether one Item is recorded to wait for the other.
pub open spec fn waits_at(v: StoreView, blocking: Seq<char>, blocked: Seq<char>) -> bool {
    exists|d: int|
        0 <= d < v.dependencies.len() && (#[trigger] v.dependencies[d]).blocked_id == blocked
            && v.dependencies[d].blocking_id == blocking
}

proof fn lemma_waits_on(v: StoreView, id: Seq<char>, item: ItemView)
    ensures
        (waits_on(v, id))(item) == waits_at(v, id, item.id),
{
    let p = (item.id, id);
    if waits(v.dependencies).contains(p) {
        let d = choose|d: int| 0 <= d < waits(v.dependencies).len() && waits(v.dependencies)[d] == p;
        assert(v.dependencies[d].blocked_id == item.id);
    }
    if waits_at(v, id, item.id) {
        let d = choose|d: int|
            0 <= d < v.dependencies.len() && (#[trigger] v.dependencies[d]).blocked_id == item.id
                && v.dependencies[d].blocking_id == id;
        assert(waits(v.dependencies)[d] == p);
    }
}

proof fn lemma_first_bound(v: StoreView, rows: Seq<ItemView>)
    ensures
        match first_bound(v, rows) {
            Ok(None) => forall|k: int|
                0 <= k < rows.len() ==> binding(v, (#[trigger] rows[k]).id) is Ok && !binding(
                    v,
                    rows[k].id,
                )->Ok_0.bound(),
            Ok(Some(item)) => exists|k: int|
                0 <= k < rows.len() && #[trigger] rows[k] == item && binding(v, item.id) is Ok
                    && binding(v, item.id)->Ok_0.bound(),
            Err(fault) => exists|k: int|
                0 <= k < rows.len() && binding(v, (#[trigger] rows[k]).id) == Err::<
                    BindingView,
                    BindingFault,
                >(fault),
        },
    decreases rows.len(),
{
    if rows.len() > 0 {
        let rest = rows.skip(1);
        lemma_first_bound(v, rest);
        assert(rows[0] == rows[0]);
        if binding(v, rows[0].id) is Ok && !binding(v, rows[0].id)->Ok_0.bound() {
            match first_bound(v, rest) {
                Ok(None) => {
                    assert forall|k: int| 0 <= k < rows.len() implies binding(
                        v,
                        (#[trigger] rows[k]).id,
                    ) is Ok && !binding(v, rows[k].id)->Ok_0.bound() by {
                        if k > 0 {
                            assert(rest[k - 1] == rows[k]);
                        }
                    }
                },
                Ok(Some(item)) => {
                    let k = choose|k: int|
                        0 <= k < rest.len() && #[trigger] rest[k] == item && binding(
                            v,
                            item.id,
                        ) is Ok && binding(v, item.id)->Ok_0.bound();
                    assert(rows[k + 1] == item);
                },
                Err(fault) => {
                    let k = choose|k: int|
                        0 <= k < rest.len() && binding(v, (#[trigger] rest[k]).id) == Err::<
                            BindingView,
                            BindingFault,
                        >(fault);
                    assert(rows[k + 1] == rest[k]);
                },
            }
        }
    }
}

/// Whether the Item is known by an Alias.
pub open spec fn is_aliased(v: StoreView, id: Seq<char>) -> bool {
    exists|i: int| 0 <= i < v.aliases.len() && (#[trigger] v.aliases[i]).item_id == id
}

/// What is detached is a Ticket on a known Backend, whose Display ID is on
/// record or never changed, that no bound Item waits for and that nothing
/// unsettled concerns. What is refused lacks what the refusal says.
pub proof fn law_when_detaching_is_refused(v: StoreView, arg: Seq<char>, id: Seq<char>)
    requires
        v.wf(),
        v.resolved(arg) == Some(id),
        v.has(id),
    ensures
        ({
            let item = v.item(id);
            let unclear = item.local_display_id is None && is_aliased(v, id);
            match detach_refusal(v, arg) {
                None => {
                    &&& item.origin == Origin::Backend
                    &&& item.item_class == ItemClass::Ticket
                    &&& is_called(item.backend_kind->0, BackendKind::Github) || is_called(
                        item.backend_kind->0,
                        BackendKind::Jira,
                    )
                    &&& !unclear
                    &&& forall|i: int| !#[trigger] bound_item_waits(v, id, i)
                    &&& !has_unsettled(v, id)
                },
                Some(DetachFault::NotFound) => false,
                Some(DetachFault::Local) => item.origin == Origin::Local && binding(v, id) == Ok::<
                    BindingView,
                    BindingFault,
                >(BindingView::Local),
                Some(DetachFault::PendingPromotion) => item.origin == Origin::Local && binding(
                    v,
                    id,
                ) is Ok && binding(v, id)->Ok_0 is PendingPromotion,
                Some(DetachFault::UnsupportedHistory) => item.origin == Origin::Backend && (
                item.item_class == ItemClass::Epic || unclear),
                Some(DetachFault::UnresolvedMutations) => item.origin == Origin::Backend
                    && has_unsettled(v, id),
                Some(DetachFault::BackendBlockedByDetached(display_id, class)) => exists|i: int|
                    #[trigger]
                    bound_item_waits(v, id, i) && v.items[i].display_id == display_id
                        && v.items[i].item_class == class,
                Some(DetachFault::DisplayPrefixMissing) => item.local_display_id is None
                    && v.display_prefix is None,
                Some(DetachFault::BackendBinding(_)) => true,
                Some(DetachFault::Sequence(_)) => item.local_display_id is None && (v.display_seq
                    is None || v.display_seq == Some(i64::MAX as int)),
                Some(DetachFault::Storage(fault)) => item.origin == Origin::Backend && (fault
                    == Fault::Check || fault == Fault::Overflow || fault == Fault::DisplayIdTaken),
            }
        }),
{
    lemma_row(v, id);
    let item = v.item(id);
    assert(item.admitted());
    let cond = waits_on(v, id);
    let rows = v.items.filter(cond);
    lemma_filter_contains(v.items, cond);
    lemma_first_bound(v, rows);
    assert(forall|m: MutationView|
        (entangled(id))(m) == (unsettled(m.state) && #[trigger] concerns(m, id)));
    match detach_refusal(v, arg) {
        None => {
            assert forall|i: int| !#[trigger] bound_item_waits(v, id, i) by {
                if bound_item_waits(v, id, i) {
                    lemma_waits_on(v, id, v.items[i]);
                    assert(rows.contains(v.items[i]));
                    let k = choose|k: int| 0 <= k < rows.len() && rows[k] == v.items[i];
                    assert(!binding(v, rows[k].id)->Ok_0.bound());
                }
            }
            if has_unsettled(v, id) {
                let i = choose|i: int|
                    0 <= i < v.mutations.len() && unsettled((#[trigger] v.mutations[i]).state)
                        && concerns(v.mutations[i], id);
                assert((entangled(id))(v.mutations[i]));
            }
        },
        Some(DetachFault::BackendBlockedByDetached(display_id, class)) => {
            let found = first_bound(v, rows)->Ok_0->0;
            let k = choose|k: int| 0 <= k < rows.len() && #[trigger] rows[k] == found;
            let i = choose|i: int| 0 <= i < v.items.len() && v.items[i] == rows[k];
            lemma_waits_on(v, id, v.items[i]);
            assert(bound_item_waits(v, id, i));
        },
        Some(DetachFault::UnresolvedMutations) => {
            let i = choose|i: int|
                0 <= i < v.mutations.len() && (entangled(id))(#[trigger] v.mutations[i]);
            assert(concerns(v.mutations[i], id));
        },
        _ => {},
    }
}

} // verus!
