//! Detachment of a Backend Ticket: it becomes Local again.

use vstd::prelude::*;

use crate::domain::{
    AddressedCounterpart, BackendBinding, BindingView, ItemClass, MutationType, Origin,
};
use crate::keep::{lemma_push_former, lemma_remove_alias, lemma_rename_item, name_free_for};
use crate::mutations::{binding, resolve_backend_binding, BackendBindingError, BindingFault};
use crate::payload::{json_member, read_member};
use crate::promotion::receipt::{lemma_receipt_wf, outgoing_alias, receipt_applied};
use crate::rows::{FormerIdentity, FormerIdentityView, ItemView, MutationView};
use crate::select::{lemma_filter_all, lemma_filter_none, lemma_filter_step};
use crate::sequences::SequenceError;
use crate::sync::{kind_named, parse_kind};
use crate::tables::{lemma_at, lemma_has, Counter, Fault, Store, StoreView};
use crate::text::{folded, same_folded, same_text};

use super::create::{next_display, next_display_id, DisplayIdError};
use super::resolve::{find_named, lemma_resolved};

verus! {

/// What a detachment did.
#[derive(Clone, Debug, PartialEq, Eq)]
pub struct DetachReport {
    pub item_class: ItemClass,
    pub backend_display_id: String,
    pub local_display_id: String,
    pub backend_key: String,
}

/// Why an Item was not detached.
#[derive(Debug)]
pub enum DetachError {
    NotFound,
    Local,
    PendingPromotion,
    /// The Item is an Epic, or it has an Alias and no Local Display ID on record.
    UnsupportedHistory,
    UnresolvedMutations,
    /// A bound Item would wait on the detached one.
    BackendBlockedByDetached { display_id: String, item_class: ItemClass },
    DisplayPrefixMissing,
    BackendBinding(BackendBindingError),
    Sequence(SequenceError),
    Storage(Fault),
}

/// The model of [`DetachError`].
pub enum DetachFault {
    NotFound,
    Local,
    PendingPromotion,
    UnsupportedHistory,
    UnresolvedMutations,
    BackendBlockedByDetached(Seq<char>, ItemClass),
    DisplayPrefixMissing,
    BackendBinding(BindingFault),
    Sequence(SequenceError),
    Storage(Fault),
}

impl View for DetachError {
    type V = DetachFault;

    open spec fn view(&self) -> DetachFault {
        match self {
            DetachError::NotFound => DetachFault::NotFound,
            DetachError::Local => DetachFault::Local,
            DetachError::PendingPromotion => DetachFault::PendingPromotion,
            DetachError::UnsupportedHistory => DetachFault::UnsupportedHistory,
            DetachError::UnresolvedMutations => DetachFault::UnresolvedMutations,
            DetachError::BackendBlockedByDetached { display_id, item_class } => {
                DetachFault::BackendBlockedByDetached(display_id@, *item_class)
            },
            DetachError::DisplayPrefixMissing => DetachFault::DisplayPrefixMissing,
            DetachError::BackendBinding(error) => DetachFault::BackendBinding(error@),
            DetachError::Sequence(error) => DetachFault::Sequence(*error),
            DetachError::Storage(fault) => DetachFault::Storage(*fault),
        }
    }
}

/// Whether an Item waits on the given one.
pub open spec fn waits_on(v: StoreView, blocking_id: Seq<char>) -> spec_fn(ItemView) -> bool {
    |item: ItemView| v.has_dependency(item.id, blocking_id)
}

/// The first of the Items that stands on a Backend or is bound for one, or the
/// first Backend Binding that cannot be told.
pub open spec fn first_bound(v: StoreView, rows: Seq<ItemView>) -> Result<
    Option<ItemView>,
    BindingFault,
>
    decreases rows.len(),
{
    if rows.len() == 0 {
        Ok(None)
    } else {
        match binding(v, rows[0].id) {
            Err(fault) => Err(fault),
            Ok(bound) => if bound.bound() {
                Ok(Some(rows[0]))
            } else {
                first_bound(v, rows.skip(1))
            },
        }
    }
}

/// The Item that a Mutation's payload names under the member that its type
/// addresses, if it names one there.
pub open spec fn named_in(mutation_type: MutationType, payload: Seq<char>) -> Option<Seq<char>> {
    match mutation_type.counterpart() {
        AddressedCounterpart::Nothing => None,
        AddressedCounterpart::Epic => json_member(payload, "epic_id"@),
        AddressedCounterpart::BlockingItem => json_member(payload, "blocking_id"@),
    }
}

/// Whether a Mutation that targets or addresses the Item awaits its outcome.
pub open spec fn entangled(id: Seq<char>) -> spec_fn(MutationView) -> bool {
    |m: MutationView|
        m.state.is_nonterminal() && (m.item_id == id || named_in(m.mutation_type, m.payload_json)
            == Some(id))
}

/// Whether the Item has an Alias.
pub open spec fn has_alias(v: StoreView, id: Seq<char>) -> bool {
    exists|i: int| 0 <= i < v.aliases.len() && (#[trigger] v.aliases[i]).item_id == id
}

/// Whether the Item has been known by other names, and which of them was its
/// Local Display ID is not on record.
pub open spec fn history_unclear(v: StoreView, id: Seq<char>) -> bool {
    v.item(id).local_display_id is None && has_alias(v, id)
}

/// The Display ID that the Item takes when it is detached: the Local one on
/// record, or the next of the store's.
pub open spec fn local_name(v: StoreView, id: Seq<char>) -> Result<Seq<char>, DisplayIdError> {
    match v.item(id).local_display_id {
        Some(name) => Ok(name),
        None => next_display(v),
    }
}

/// Whether the Alias at the place is the Item's and reads as given, ASCII case
/// ignored.
pub open spec fn own_alias(v: StoreView, id: Seq<char>, name: Seq<char>, i: int) -> bool {
    0 <= i < v.aliases.len() && v.aliases[i].item_id == id && folded(v.aliases[i].value) == folded(
        name,
    )
}

/// The store without the Item's Alias of that name, where there is one.
pub open spec fn without_alias(v: StoreView, id: Seq<char>, name: Seq<char>) -> StoreView {
    if exists|i: int| own_alias(v, id, name, i) {
        StoreView { aliases: v.aliases.remove(choose|i: int| own_alias(v, id, name, i)), ..v }
    } else {
        v
    }
}

/// Whether a Mutation of the log meets the condition.
pub open spec fn any_mutation(v: StoreView, cond: spec_fn(MutationView) -> bool) -> bool {
    exists|i: int| 0 <= i < v.mutations.len() && cond(#[trigger] v.mutations[i])
}

/// The place that the next detachment takes in the history.
pub open spec fn next_detached_seq(formers: Seq<FormerIdentityView>) -> int
    decreases formers.len(),
{
    if formers.len() == 0 {
        1
    } else {
        let before = next_detached_seq(formers.drop_last());
        if formers.last().detached_seq >= before || formers.len() == 1 {
            formers.last().detached_seq + 1
        } else {
            before
        }
    }
}

/// Why an Item may not be detached, if it may not.
pub open spec fn detach_refusal(v: StoreView, display_arg: Seq<char>) -> Option<DetachFault> {
    match v.resolved(display_arg) {
        None => Some(DetachFault::NotFound),
        Some(id) => {
            let item = v.item(id);
            match (item.backend_kind, item.backend_key) {
                (Some(kind), Some(key)) => {
                    let waiting = first_bound(v, v.items.filter(waits_on(v, id)));
                    if kind_named(kind) is None {
                        Some(DetachFault::Storage(Fault::Check))
                    } else if item.item_class != ItemClass::Ticket || history_unclear(v, id) {
                        Some(DetachFault::UnsupportedHistory)
                    } else if waiting is Err {
                        Some(DetachFault::BackendBinding(waiting->Err_0))
                    } else if waiting->Ok_0 is Some {
                        Some(
                            DetachFault::BackendBlockedByDetached(
                                waiting->Ok_0->0.display_id,
                                waiting->Ok_0->0.item_class,
                            ),
                        )
                    } else if any_mutation(v, entangled(id)) {
                        Some(DetachFault::UnresolvedMutations)
                    } else {
                        match local_name(v, id) {
                            Err(DisplayIdError::Sequence(error)) => Some(
                                DetachFault::Sequence(error),
                            ),
                            Err(DisplayIdError::PrefixMissing) => Some(
                                DetachFault::DisplayPrefixMissing,
                            ),
                            Ok(local) => if next_detached_seq(v.former_identities) > i64::MAX {
                                Some(DetachFault::Storage(Fault::Overflow))
                            } else if !name_free_for(without_alias(v, id, local), id, local) {
                                Some(DetachFault::Storage(Fault::DisplayIdTaken))
                            } else {
                                None
                            },
                        }
                    }
                },
                _ => match binding(v, id) {
                    Err(fault) => Some(DetachFault::BackendBinding(fault)),
                    Ok(BindingView::PendingPromotion(_)) => Some(DetachFault::PendingPromotion),
                    Ok(_) => Some(DetachFault::Local),
                },
            }
        },
    }
}

/// The Item with a Local identity.
pub open spec fn local_item(item: ItemView, display_id: Seq<char>, now: Seq<char>) -> ItemView {
    ItemView {
        display_id,
        display_created_at: now,
        origin: Origin::Local,
        backend_kind: None,
        backend_key: None,
        local_display_id: None,
        updated_at: now,
        ..item
    }
}

/// The record of the Backend identity that the Item held.
pub open spec fn left_identity(v: StoreView, item: ItemView, now: Seq<char>) -> FormerIdentityView {
    FormerIdentityView {
        backend_kind: item.backend_kind->0,
        backend_key: item.backend_key->0,
        item_id: item.id,
        backend_display_value: item.display_id,
        detached_seq: next_detached_seq(v.former_identities),
        detached_at: now,
    }
}

/// The store with the Item detached: a Local Display ID that it had is an Alias
/// no more, and the counter moves only where a new one was drawn.
pub open spec fn detached(v: StoreView, id: Seq<char>, now: Seq<char>) -> StoreView {
    let local = local_name(v, id)->Ok_0;
    StoreView {
        items: v.items.update(v.at(id), local_item(v.item(id), local, now)),
        aliases: without_alias(v, id, local).aliases,
        former_identities: v.former_identities.push(left_identity(v, v.item(id), now)),
        display_seq: if v.item(id).local_display_id is Some {
            v.display_seq
        } else {
            Some(v.display_seq->0 + 1)
        },
        ..v
    }
}

fn item_has_alias(store: &Store, id: &str) -> (r: bool)
    ensures
        r == has_alias(store@, id@),
{
    let mut i: usize = 0;
    while i < store.alias_count()
        invariant
            0 <= i <= store@.aliases.len(),
            forall|k: int| 0 <= k < i ==> (#[trigger] store@.aliases[k]).item_id != id@,
        decreases store@.aliases.len() - i,
    {
        if same_text(store.alias(i).item_id.as_str(), id) {
            proof {
                assert(store@.aliases[i as int].item_id == id@);
            }
            return true;
        }
        i = i + 1;
    }
    false
}

/// The place of the Item's Alias of that name, if it has one.
fn find_own_alias(store: &Store, id: &str, name: &str) -> (r: Option<usize>)
    ensures
        match r {
            Some(i) => own_alias(store@, id@, name@, i as int),
            None => forall|i: int| !own_alias(store@, id@, name@, i),
        },
{
    let mut i: usize = 0;
    while i < store.alias_count()
        invariant
            0 <= i <= store@.aliases.len(),
            forall|k: int| k < i ==> !own_alias(store@, id@, name@, k),
        decreases store@.aliases.len() - i,
    {
        let alias = store.alias(i);
        if same_text(alias.item_id.as_str(), id) && same_folded(alias.value.as_str(), name) {
            return Some(i);
        }
        i = i + 1;
    }
    None
}

/// An Item's Alias of a name is its only one of that name.
proof fn lemma_without_alias(v: StoreView, id: Seq<char>, name: Seq<char>, i: int)
    requires
        v.wf(),
        own_alias(v, id, name, i),
    ensures
        without_alias(v, id, name) == (StoreView { aliases: v.aliases.remove(i), ..v }),
{
    let k = choose|k: int| own_alias(v, id, name, k);
    assert(own_alias(v, id, name, k));
    if k != i {
        assert(folded(v.aliases[k].value) == folded(v.aliases[i].value));
    }
}

/// A store without an Alias holds to what every store does.
proof fn lemma_without_alias_wf(v: StoreView, id: Seq<char>, name: Seq<char>)
    requires
        v.wf(),
    ensures
        without_alias(v, id, name).wf(),
        without_alias(v, id, name) == (StoreView {
            aliases: without_alias(v, id, name).aliases,
            ..v
        }),
{
    if exists|i: int| own_alias(v, id, name, i) {
        lemma_remove_alias(v, choose|i: int| own_alias(v, id, name, i));
    }
}

/// Passing over a row that no Backend knows.
proof fn lemma_first_bound_skips(v: StoreView, rows: Seq<ItemView>, n: int)
    requires
        0 <= n <= rows.len(),
        forall|k: int|
            0 <= k < n ==> binding(v, (#[trigger] rows[k]).id) is Ok && !binding(
                v,
                rows[k].id,
            )->Ok_0.bound(),
    ensures
        first_bound(v, rows) == first_bound(v, rows.skip(n)),
    decreases n,
{
    if n > 0 {
        let rest = rows.skip(1);
        assert forall|k: int| 0 <= k < n - 1 implies binding(v, (#[trigger] rest[k]).id) is Ok
            && !binding(v, rest[k].id)->Ok_0.bound() by {
            assert(rest[k] == rows[k + 1]);
        }
        assert(binding(v, rows[0].id) is Ok);
        lemma_first_bound_skips(v, rest, n - 1);
        assert(rest.skip(n - 1) =~= rows.skip(n));
    } else {
        assert(rows.skip(0) =~= rows);
    }
}

/// The first Item waiting on the given one that a Backend knows.
fn backend_bound_blocked_item(store: &Store, blocking_id: &str) -> (r: Result<
    Option<(String, ItemClass)>,
    BackendBindingError,
>)
    requires
        store.wf(),
    ensures
        ({
            let found = first_bound(store@, store@.items.filter(waits_on(store@, blocking_id@)));
            match r {
                Ok(Some((display_id, item_class))) => {
                    &&& found is Ok
                    &&& found->Ok_0 is Some
                    &&& found->Ok_0->0.display_id == display_id@
                    &&& found->Ok_0->0.item_class == item_class
                },
                Ok(None) => found == Ok::<Option<ItemView>, BindingFault>(None),
                Err(error) => found == Err::<Option<ItemView>, BindingFault>(error@),
            }
        }),
{
    let ghost cond = waits_on(store@, blocking_id@);
    let ghost rows = store@.items.filter(cond);
    let mut i: usize = 0;
    let ghost mut n: int = 0;
    proof {
        lemma_filter_none(store@.items, cond);
    }
    while i < store.item_count()
        invariant
            0 <= i <= store@.items.len(),
            store.wf(),
            cond == waits_on(store@, blocking_id@),
            rows == store@.items.filter(cond),
            n == store@.items.take(i as int).filter(cond).len(),
            0 <= n <= rows.len(),
            rows.take(n) == store@.items.take(i as int).filter(cond),
            forall|k: int|
                0 <= k < n ==> binding(store@, (#[trigger] rows[k]).id) is Ok && !binding(
                    store@,
                    rows[k].id,
                )->Ok_0.bound(),
        decreases store@.items.len() - i,
    {
        let item = store.item(i);
        let ghost head = store@.items.take(i + 1);
        let ghost tail = store@.items.skip(i + 1);
        proof {
            lemma_filter_step(store@.items, cond, i as int);
            assert(head + tail =~= store@.items);
            Seq::filter_distributes_over_add(head, tail, cond);
        }
        if store.find_dependency(item.id.as_str(), blocking_id).is_some() {
            proof {
                assert(cond(store@.items[i as int]));
                assert(rows == head.filter(cond) + tail.filter(cond));
                assert(rows[n] == store@.items[i as int]);
                assert(rows.take(n + 1) =~= head.filter(cond));
            }
            let bound = match resolve_backend_binding(store, item.id.as_str()) {
                Ok(bound) => bound,
                Err(error) => {
                    proof {
                        lemma_first_bound_skips(store@, rows, n);
                        assert(rows.skip(n)[0] == rows[n]);
                    }
                    return Err(error);
                },
            };
            if bound.is_backend_bound() {
                proof {
                    lemma_first_bound_skips(store@, rows, n);
                    assert(rows.skip(n)[0] == rows[n]);
                }
                return Ok(Some((item.display_id.clone(), item.item_class)));
            }
            proof {
                n = n + 1;
            }
        } else {
            proof {
                assert(!cond(store@.items[i as int]));
            }
        }
        i = i + 1;
    }
    proof {
        lemma_filter_all(store@.items, cond);
        lemma_first_bound_skips(store@, rows, n);
        assert(rows.skip(n).len() == 0);
    }
    Ok(None)
}

fn has_entangled(store: &Store, id: &str) -> (r: bool)
    ensures
        r == any_mutation(store@, entangled(id@)),
{
    let ghost cond = entangled(id@);
    let mut i: usize = 0;
    while i < store.mutation_count()
        invariant
            0 <= i <= store@.mutations.len(),
            cond == entangled(id@),
            forall|k: int| 0 <= k < i ==> !cond(#[trigger] store@.mutations[k]),
        decreases store@.mutations.len() - i,
    {
        let m = store.mutation(i);
        if m.state.nonterminal() {
            let mut hit = same_text(m.item_id.as_str(), id);
            if !hit {
                let other = match m.mutation_type.addressed_counterpart() {
                    AddressedCounterpart::Nothing => None,
                    AddressedCounterpart::Epic => read_member(m.payload_json.as_str(), "epic_id"),
                    AddressedCounterpart::BlockingItem => read_member(
                        m.payload_json.as_str(),
                        "blocking_id",
                    ),
                };
                if let Some(other) = other {
                    hit = same_text(other.as_str(), id);
                }
            }
            if hit {
                proof {
                    assert(cond(store@.mutations[i as int]));
                }
                return true;
            }
        }
        i = i + 1;
    }
    false
}

/// The place that the next detachment takes in the history, if it fits.
fn detached_seq(store: &Store) -> (r: Option<i64>)
    ensures
        match r {
            Some(n) => next_detached_seq(store@.former_identities) == n,
            None => next_detached_seq(store@.former_identities) > i64::MAX,
        },
{
    let ghost all = store@.former_identities;
    if store.former_identity_count() == 0 {
        return Some(1);
    }
    let mut top: i64 = store.former_identity(0).detached_seq;
    let mut i: usize = 1;
    proof {
        assert(all.take(1).drop_last().len() == 0);
        assert(all.take(1).last() == all[0]);
    }
    while i < store.former_identity_count()
        invariant
            1 <= i <= all.len(),
            all == store@.former_identities,
            next_detached_seq(all.take(i as int)) == top + 1,
        decreases all.len() - i,
    {
        let seq: i64 = store.former_identity(i).detached_seq;
        proof {
            assert(all.take(i + 1).drop_last() =~= all.take(i as int));
            assert(all.take(i + 1).last() == all[i as int]);
        }
        if seq > top {
            top = seq;
        }
        i = i + 1;
    }
    proof {
        assert(all.take(i as int) =~= all);
    }
    if top == i64::MAX {
        None
    } else {
        Some(top + 1)
    }
}

pub(crate) fn is_name_free_for(store: &Store, id: &str, name: &str) -> (r: bool)
    ensures
        r == name_free_for(store@, id@, name@),
{
    let mut i: usize = 0;
    while i < store.item_count()
        invariant
            0 <= i <= store@.items.len(),
            forall|k: int|
                0 <= k < i && (#[trigger] store@.items[k]).id != id@ ==> folded(
                    store@.items[k].display_id,
                ) != folded(name@),
        decreases store@.items.len() - i,
    {
        let item = store.item(i);
        if !same_text(item.id.as_str(), id) && same_folded(item.display_id.as_str(), name) {
            proof {
                assert(store@.items[i as int].id != id@);
            }
            return false;
        }
        i = i + 1;
    }
    let mut j: usize = 0;
    while j < store.alias_count()
        invariant
            0 <= j <= store@.aliases.len(),
            forall|k: int|
                0 <= k < j ==> folded((#[trigger] store@.aliases[k]).value) != folded(name@),
        decreases store@.aliases.len() - j,
    {
        if same_folded(store.alias(j).value.as_str(), name) {
            proof {
                assert(folded(store@.aliases[j as int].value) == folded(name@));
            }
            return false;
        }
        j = j + 1;
    }
    true
}

/// A name that is the Item's own Alias is free for it once the Alias has left.
proof fn lemma_own_alias_frees(v: StoreView, id: Seq<char>, name: Seq<char>, i: int)
    requires
        v.wf(),
        own_alias(v, id, name, i),
    ensures
        name_free_for(without_alias(v, id, name), id, name),
{
    lemma_without_alias(v, id, name, i);
    let left = v.aliases.remove(i);
    assert forall|k: int| 0 <= k < left.len() implies folded((#[trigger] left[k]).value) != folded(
        name,
    ) by {
        let was = if k < i {
            k
        } else {
            k + 1
        };
        assert(left[k] == v.aliases[was]);
        assert(folded(v.aliases[was].value) != folded(v.aliases[i].value));
    }
    assert forall|k: int| 0 <= k < v.items.len() implies folded(
        (#[trigger] v.items[k]).display_id,
    ) != folded(name) by {
        assert(folded(v.items[k].display_id) != folded(v.aliases[i].value));
    }
}

/// A store with an Item detached holds to what every store does.
proof fn lemma_detached_wf(v: StoreView, id: Seq<char>, now: Seq<char>)
    requires
        v.wf(),
        v.has(id),
        v.item(id).backend_kind is Some,
        v.item(id).backend_key is Some,
        local_name(v, id) is Ok,
        name_free_for(without_alias(v, id, local_name(v, id)->Ok_0), id, local_name(v, id)->Ok_0),
    ensures
        detached(v, id, now).wf(),
{
    lemma_has(v, id);
    let i = v.at(id);
    let local = local_name(v, id)->Ok_0;
    let former = left_identity(v, v.item(id), now);
    assert forall|k: int|
        0 <= k < v.items.len() && (#[trigger] v.items[k]).backend_kind == Some(former.backend_kind)
            && v.items[k].backend_key == Some(former.backend_key) implies v.items[k].id
        == former.item_id by {
        if k != i {
            assert(!crate::tables::same_identity(v.items[i], v.items[k]));
        }
    }
    lemma_without_alias_wf(v, id, local);
    let freed = without_alias(v, id, local);
    lemma_push_former(freed, former);
    let recorded = StoreView { former_identities: v.former_identities.push(former), ..freed };
    lemma_rename_item(recorded, i, local_item(v.item(id), local, now));
}

/// Detach a Backend Ticket: it takes the Local Display ID that it had, which is
/// its Alias no more, or a new one where it had none; and the Backend identity
/// it held is recorded as a former one.
pub fn detach(store: &mut Store, display_arg: &str, now: &str) -> (r: Result<
    DetachReport,
    DetachError,
>)
    requires
        old(store).wf(),
    ensures
        final(store).wf(),
        match r {
            Ok(report) => {
                let v = old(store)@;
                let id = v.resolved(display_arg@)->0;
                &&& detach_refusal(v, display_arg@) is None
                &&& final(store)@ == detached(v, id, now@)
                &&& report.item_class == v.item(id).item_class
                &&& report.backend_display_id@ == v.item(id).display_id
                &&& local_name(v, id) == Ok::<Seq<char>, DisplayIdError>(report.local_display_id@)
                &&& v.item(id).backend_key == Some(report.backend_key@)
            },
            Err(error) => detach_refusal(old(store)@, display_arg@) == Some(error@) && final(store)@ == old(store)@,
        },
{
    let i: usize = match find_named(store, display_arg) {
        Some(i) => i,
        None => {
            return Err(DetachError::NotFound);
        },
    };
    let mut item = store.item(i).copy();
    let (kind, key) = match (&item.backend_kind, &item.backend_key) {
        (Some(kind), Some(key)) => (kind.clone(), key.clone()),
        _ => {
            return match resolve_backend_binding(store, item.id.as_str()) {
                Err(error) => Err(DetachError::BackendBinding(error)),
                Ok(BackendBinding::PendingPromotion { .. }) => Err(DetachError::PendingPromotion),
                Ok(_) => Err(DetachError::Local),
            };
        },
    };
    if parse_kind(kind.as_str()).is_none() {
        return Err(DetachError::Storage(Fault::Check));
    }
    if item.item_class != ItemClass::Ticket || (item.local_display_id.is_none() && item_has_alias(
        store,
        item.id.as_str(),
    )) {
        return Err(DetachError::UnsupportedHistory);
    }
    match backend_bound_blocked_item(store, item.id.as_str()) {
        Err(error) => {
            return Err(DetachError::BackendBinding(error));
        },
        Ok(Some((display_id, item_class))) => {
            return Err(DetachError::BackendBlockedByDetached { display_id, item_class });
        },
        Ok(None) => {},
    }
    if has_entangled(store, item.id.as_str()) {
        return Err(DetachError::UnresolvedMutations);
    }
    let (local_display_id, number) = match &item.local_display_id {
        Some(local) => (local.clone(), None),
        None => match next_display_id(store) {
            Ok((next, number)) => (next, Some(number)),
            Err(DisplayIdError::Sequence(error)) => {
                return Err(DetachError::Sequence(error));
            },
            Err(DisplayIdError::PrefixMissing) => {
                return Err(DetachError::DisplayPrefixMissing);
            },
        },
    };
    let seq: i64 = match detached_seq(store) {
        Some(seq) => seq,
        None => {
            return Err(DetachError::Storage(Fault::Overflow));
        },
    };
    let kept = find_own_alias(store, item.id.as_str(), local_display_id.as_str());
    match kept {
        Some(k) => {
            proof {
                lemma_own_alias_frees(store@, item@.id, local_display_id@, k as int);
                lemma_without_alias(store@, item@.id, local_display_id@, k as int);
            }
        },
        None => {
            if !is_name_free_for(store, item.id.as_str(), local_display_id.as_str()) {
                return Err(DetachError::Storage(Fault::DisplayIdTaken));
            }
        },
    }
    let report = DetachReport {
        item_class: item.item_class,
        backend_display_id: item.display_id.clone(),
        local_display_id: local_display_id.clone(),
        backend_key: key.clone(),
    };
    let former = FormerIdentity {
        backend_kind: kind,
        backend_key: key,
        item_id: item.id.clone(),
        backend_display_value: item.display_id.clone(),
        detached_seq: seq,
        detached_at: now.to_owned(),
    };
    item.display_id = local_display_id;
    item.display_created_at = now.to_owned();
    item.origin = Origin::Local;
    item.backend_kind = None;
    item.backend_key = None;
    item.local_display_id = None;
    item.updated_at = now.to_owned();
    proof {
        let v = old(store)@;
        let id = v.items[i as int].id;
        lemma_detached_wf(v, id, now@);
        assert(former@ =~= left_identity(v, v.item(id), now@));
        assert(item@ =~= local_item(v.item(id), local_name(v, id)->Ok_0, now@));
    }
    store.put_item(i, item);
    if let Some(k) = kept {
        store.remove_alias_row(k);
    }
    store.push_former(former);
    if let Some(number) = number {
        store.set_counter(Counter::Display, Some(number));
    }
    proof {
        assert(store@ =~= detached(old(store)@, old(store)@.items[i as int].id, now@));
    }
    Ok(report)
}

// ---- Laws ---------------------------------------------------------------

/// A detached Item is Local, keeps its internal ID, and is named by the Display
/// ID it took; its Backend Display ID names it no more unless both are the same
/// up to case, and every other Alias of it still does.
pub proof fn law_detach_swaps_the_display_id(
    v: StoreView,
    display_arg: Seq<char>,
    now: Seq<char>,
)
    requires
        v.wf(),
        detach_refusal(v, display_arg) is None,
    ensures
        ({
            let id = v.resolved(display_arg)->0;
            let local = local_name(v, id)->Ok_0;
            let after = detached(v, id, now);
            &&& after.item(id).id == id
            &&& after.item(id).origin == Origin::Local
            &&& after.names(local, id)
            &&& folded(local) != folded(v.item(id).display_id) ==> !after.names(
                v.item(id).display_id,
                id,
            )
            &&& forall|k: int|
                0 <= k < v.aliases.len() && (#[trigger] v.aliases[k]).item_id == id ==> after.names(
                    v.aliases[k].value,
                    id,
                )
        }),
{
    let id = v.resolved(display_arg)->0;
    let local = local_name(v, id)->Ok_0;
    lemma_resolved_has(v, display_arg);
    lemma_has(v, id);
    lemma_detached_wf(v, id, now);
    let after = detached(v, id, now);
    let i = v.at(id);
    assert(after.items[i].id == id);
    lemma_at(after, i);
    if exists|k: int| own_alias(v, id, local, k) {
        let k = choose|k: int| own_alias(v, id, local, k);
        lemma_without_alias(v, id, local, k);
        assert forall|a: int| 0 <= a < after.aliases.len() implies #[trigger] after.aliases[a]
            == v.aliases[if a < k {
            a
        } else {
            a + 1
        }] by {}
        assert forall|a: int|
            0 <= a < v.aliases.len() && (
            #[trigger] v.aliases[a]).item_id == id implies after.names(v.aliases[a].value, id) by {
            if a < k {
                assert(after.aliases[a] == v.aliases[a]);
            } else if a > k {
                assert(after.aliases[a - 1] == v.aliases[a]);
            }
        }
    } else {
        assert(after.aliases == v.aliases);
        assert forall|a: int|
            0 <= a < v.aliases.len() && (
            #[trigger] v.aliases[a]).item_id == id implies after.names(v.aliases[a].value, id) by {
            assert(after.aliases[a] == v.aliases[a]);
        }
    }
    if after.names(v.item(id).display_id, id) {
        if exists|k: int|
            0 <= k < after.items.len() && (#[trigger] after.items[k]).id == id && folded(
                after.items[k].display_id,
            ) == folded(v.item(id).display_id) {
            let k = choose|k: int|
                0 <= k < after.items.len() && (#[trigger] after.items[k]).id == id && folded(
                    after.items[k].display_id,
                ) == folded(v.item(id).display_id);
            lemma_at(after, k);
        } else {
            let k = choose|k: int|
                0 <= k < after.aliases.len() && (#[trigger] after.aliases[k]).item_id == id
                    && folded(after.aliases[k].value) == folded(v.item(id).display_id);
            let alias = after.aliases[k];
            assert(exists|a: int| 0 <= a < v.aliases.len() && v.aliases[a] == alias);
            let a = choose|a: int| 0 <= a < v.aliases.len() && v.aliases[a] == alias;
            assert(folded(v.items[i].display_id) != folded(v.aliases[a].value));
        }
    }
}

/// Detaching a Ticket that a receipt turned into a Backend Item is refused
/// neither for its history nor over its name, whatever Aliases it has; and it
/// undoes the receipt: the Ticket has its Display ID again, and every Alias,
/// every other Item and the Plan is as before.
pub proof fn law_detach_undoes_a_receipt(
    v: StoreView,
    id: Seq<char>,
    backend_kind: Seq<char>,
    backend_key: Seq<char>,
    display_id: Seq<char>,
    promoted_at: Seq<char>,
    detached_at: Seq<char>,
)
    requires
        v.wf(),
        receipt_applied(v, id, backend_kind, backend_key, display_id, promoted_at) is Ok,
        v.item(id).item_class == ItemClass::Ticket,
    ensures
        ({
            let promoted = receipt_applied(
                v,
                id,
                backend_kind,
                backend_key,
                display_id,
                promoted_at,
            )->Ok_0;
            let after = detached(promoted, id, detached_at);
            &&& promoted.resolved(display_id) == Some(id)
            &&& detach_refusal(promoted, display_id) != Some(DetachFault::UnsupportedHistory)
            &&& detach_refusal(promoted, display_id) != Some(
                DetachFault::Storage(Fault::DisplayIdTaken),
            )
            &&& after.items == v.items.update(
                v.at(id),
                (ItemView {
                    display_created_at: detached_at,
                    updated_at: detached_at,
                    ..v.item(id)
                }),
            )
            &&& after.aliases == v.aliases
            &&& after.display_seq == v.display_seq
            &&& after.plan == v.plan
        }),
{
    lemma_has(v, id);
    lemma_receipt_wf(v, id, backend_kind, backend_key, display_id, promoted_at);
    let promoted = receipt_applied(
        v,
        id,
        backend_kind,
        backend_key,
        display_id,
        promoted_at,
    )->Ok_0;
    let i = v.at(id);
    assert(promoted.items[i].id == id);
    lemma_at(promoted, i);
    assert(promoted.names(display_id, id));
    lemma_resolved(promoted, display_id, id);
    let local = v.item(id).display_id;
    let last = v.aliases.len() as int;
    assert(promoted.aliases[last] == outgoing_alias(v.item(id)));
    assert(own_alias(promoted, id, local, last));
    lemma_without_alias(promoted, id, local, last);
    lemma_own_alias_frees(promoted, id, local, last);
    assert(promoted.aliases.remove(last) =~= v.aliases);
    assert(v.item(id).admitted());
    let after = detached(promoted, id, detached_at);
    assert(after.items[i] =~= (ItemView {
        display_created_at: detached_at,
        updated_at: detached_at,
        ..v.item(id)
    }));
    assert(after.items =~= v.items.update(i, after.items[i]));
}

/// What a text resolves to is an Item of the store.
pub proof fn lemma_resolved_has(v: StoreView, arg: Seq<char>)
    requires
        v.wf(),
        v.resolved(arg) is Some,
    ensures
        v.has(v.resolved(arg)->0),
{
    let id = choose|id: Seq<char>| v.names(arg, id);
    if exists|i: int|
        0 <= i < v.items.len() && (#[trigger] v.items[i]).id == id && folded(v.items[i].display_id)
            == folded(arg) {
        let i = choose|i: int|
            0 <= i < v.items.len() && (#[trigger] v.items[i]).id == id && folded(
                v.items[i].display_id,
            ) == folded(arg);
        lemma_at(v, i);
    }
}

} // verus!
