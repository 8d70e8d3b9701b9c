//! The receipt of a Promotion: a Local Item becomes a Backend Item.

use vstd::prelude::*;

use crate::domain::Origin;
use crate::keep::{identity_free, lemma_push_alias, lemma_rename_item, name_free};
use crate::rows::{Alias, AliasView, ItemView};
use crate::tables::{lemma_has, Fault, Store, StoreView};
use crate::text::folded;

verus! {

/// The identity that a Backend gave an Item.
#[derive(Clone, Debug, PartialEq, Eq)]
pub struct BackendItemIdentity {
    pub backend_key: String,
    pub display_id: String,
}

/// Why a receipt was not applied.
#[derive(Debug)]
pub enum ApplyReceiptError {
    /// The Display ID or the Backend identity is another's.
    Storage(Fault),
    ItemNotFound(String),
    TargetNotLocal(String),
}

/// The model of [`ApplyReceiptError`].
pub enum ReceiptFault {
    Storage(Fault),
    ItemNotFound(Seq<char>),
    TargetNotLocal(Seq<char>),
}

impl View for ApplyReceiptError {
    type V = ReceiptFault;

    open spec fn view(&self) -> ReceiptFault {
        match self {
            ApplyReceiptError::Storage(fault) => ReceiptFault::Storage(*fault),
            ApplyReceiptError::ItemNotFound(id) => ReceiptFault::ItemNotFound(id@),
            ApplyReceiptError::TargetNotLocal(id) => ReceiptFault::TargetNotLocal(id@),
        }
    }
}

/// The Item with the identity that a Backend gave it; the Local Display ID that
/// it had is kept on record.
pub open spec fn backed_item(
    item: ItemView,
    backend_kind: Seq<char>,
    backend_key: Seq<char>,
    display_id: Seq<char>,
    now: Seq<char>,
) -> ItemView {
    ItemView {
        origin: Origin::Backend,
        backend_kind: Some(backend_kind),
        backend_key: Some(backend_key),
        local_display_id: Some(item.display_id),
        display_id,
        display_created_at: now,
        updated_at: now,
        ..item
    }
}

/// The Alias that keeps an Item's outgoing Display ID.
pub open spec fn outgoing_alias(item: ItemView) -> AliasView {
    AliasView { value: item.display_id, item_id: item.id, created_at: item.display_created_at }
}

/// The store with a receipt applied, or why it is not.
pub open spec fn receipt_applied(
    v: StoreView,
    id: Seq<char>,
    backend_kind: Seq<char>,
    backend_key: Seq<char>,
    display_id: Seq<char>,
    now: Seq<char>,
) -> Result<StoreView, ReceiptFault> {
    if !v.has(id) {
        Err(ReceiptFault::ItemNotFound(id))
    } else if v.item(id).origin == Origin::Backend {
        Err(ReceiptFault::TargetNotLocal(id))
    } else if !name_free(v, display_id) {
        Err(ReceiptFault::Storage(Fault::DisplayIdTaken))
    } else if !identity_free(v, id, Some(backend_kind), Some(backend_key)) {
        Err(ReceiptFault::Storage(Fault::BackendIdentityTaken))
    } else {
        Ok(
            StoreView {
                items: v.items.update(
                    v.at(id),
                    backed_item(v.item(id), backend_kind, backend_key, display_id, now),
                ),
                aliases: v.aliases.push(outgoing_alias(v.item(id))),
                ..v
            },
        )
    }
}

/// A store with a receipt applied holds to what every store does.
pub proof fn lemma_receipt_wf(
    v: StoreView,
    id: Seq<char>,
    backend_kind: Seq<char>,
    backend_key: Seq<char>,
    display_id: Seq<char>,
    now: Seq<char>,
)
    requires
        v.wf(),
        receipt_applied(v, id, backend_kind, backend_key, display_id, now) is Ok,
    ensures
        receipt_applied(v, id, backend_kind, backend_key, display_id, now)->Ok_0.wf(),
{
    lemma_has(v, id);
    let i = v.at(id);
    let item = backed_item(v.item(id), backend_kind, backend_key, display_id, now);
    lemma_rename_item(v, i, item);
    let renamed = StoreView { items: v.items.update(i, item), ..v };
    let alias = outgoing_alias(v.item(id));
    assert(name_free(renamed, alias.value)) by {
        assert forall|k: int| 0 <= k < renamed.items.len() implies folded(
            (#[trigger] renamed.items[k]).display_id,
        ) != folded(alias.value) by {
            if k == i {
                assert(folded(v.items[i].display_id) != folded(display_id));
            } else {
                assert(renamed.items[k] == v.items[k]);
            }
        }
        assert forall|k: int| 0 <= k < renamed.aliases.len() implies folded(
            (#[trigger] renamed.aliases[k]).value,
        ) != folded(alias.value) by {
            assert(folded(v.items[i].display_id) != folded(v.aliases[k].value));
        }
    }
    lemma_push_alias(renamed, alias);
}

/// Convert a Local Item into a Backend Item: store its Backend identity,
/// replace the Display ID with the receipt's, and keep the outgoing Display ID
/// on record and resolvable as an Alias.
///
/// Selection State, Priority, status, title and body survive untouched.
pub fn apply_receipt(
    store: &mut Store,
    item_id: &str,
    backend_kind: &str,
    receipt: &BackendItemIdentity,
    now: &str,
) -> (r: Result<(), ApplyReceiptError>)
    requires
        old(store).wf(),
    ensures
        final(store).wf(),
        match r {
            Ok(()) => receipt_applied(
                old(store)@,
                item_id@,
                backend_kind@,
                receipt.backend_key@,
                receipt.display_id@,
                now@,
            ) == Ok::<StoreView, ReceiptFault>(final(store)@),
            Err(error) => {
                &&& receipt_applied(
                    old(store)@,
                    item_id@,
                    backend_kind@,
                    receipt.backend_key@,
                    receipt.display_id@,
                    now@,
                ) == Err::<StoreView, ReceiptFault>(error@)
                &&& final(store)@ == old(store)@
            },
        },
{
    let i: usize = match store.find(item_id) {
        Some(i) => i,
        None => {
            return Err(ApplyReceiptError::ItemNotFound(item_id.to_owned()));
        },
    };
    let mut item = store.item(i).copy();
    if item.origin == Origin::Backend {
        return Err(ApplyReceiptError::TargetNotLocal(item_id.to_owned()));
    }
    if !store.is_name_free(receipt.display_id.as_str()) {
        return Err(ApplyReceiptError::Storage(Fault::DisplayIdTaken));
    }
    if !store.is_identity_free(item_id, backend_kind, receipt.backend_key.as_str()) {
        return Err(ApplyReceiptError::Storage(Fault::BackendIdentityTaken));
    }
    let alias = Alias {
        value: item.display_id.clone(),
        item_id: item.id.clone(),
        created_at: item.display_created_at.clone(),
    };
    item.origin = Origin::Backend;
    item.backend_kind = Some(backend_kind.to_owned());
    item.backend_key = Some(receipt.backend_key.clone());
    item.local_display_id = Some(item.display_id.clone());
    item.display_id = receipt.display_id.clone();
    item.display_created_at = now.to_owned();
    item.updated_at = now.to_owned();
    proof {
        lemma_receipt_wf(
            old(store)@,
            item_id@,
            backend_kind@,
            receipt.backend_key@,
            receipt.display_id@,
            now@,
        );
        assert(item@ == backed_item(
            old(store)@.item(item_id@),
            backend_kind@,
            receipt.backend_key@,
            receipt.display_id@,
            now@,
        ));
        assert(alias@ == outgoing_alias(old(store)@.item(item_id@)));
    }
    store.put_item(i, item);
    store.push_alias(alias);
    Ok(())
}

/// After a receipt both the new and the outgoing Display ID name the Item.
pub proof fn law_receipt_keeps_the_outgoing_display_id(
    v: StoreView,
    id: Seq<char>,
    backend_kind: Seq<char>,
    backend_key: Seq<char>,
    display_id: Seq<char>,
    now: Seq<char>,
)
    requires
        v.wf(),
        receipt_applied(v, id, backend_kind, backend_key, display_id, now) is Ok,
    ensures
        ({
            let after = receipt_applied(v, id, backend_kind, backend_key, display_id, now)->Ok_0;
            &&& after.names(v.item(id).display_id, id)
            &&& after.names(display_id, id)
            &&& after.item(id).display_id == display_id
            &&& after.item(id).origin == Origin::Backend
        }),
{
    lemma_has(v, id);
    let after = receipt_applied(v, id, backend_kind, backend_key, display_id, now)->Ok_0;
    lemma_receipt_wf(v, id, backend_kind, backend_key, display_id, now);
    let i = v.at(id);
    assert(after.items[i].id == id);
    crate::tables::lemma_at(after, i);
    assert(after.aliases[v.aliases.len() as int] == outgoing_alias(v.item(id)));
}

/// A receipt leaves everything of the Item but its identity as it was.
pub proof fn law_receipt_keeps_local_fields(
    v: StoreView,
    id: Seq<char>,
    backend_kind: Seq<char>,
    backend_key: Seq<char>,
    display_id: Seq<char>,
    now: Seq<char>,
)
    requires
        v.wf(),
        receipt_applied(v, id, backend_kind, backend_key, display_id, now) is Ok,
    ensures
        ({
            let before = v.item(id);
            let after = receipt_applied(
                v,
                id,
                backend_kind,
                backend_key,
                display_id,
                now,
            )->Ok_0.item(id);
            &&& after.id == before.id
            &&& after.item_class == before.item_class
            &&& after.ticket_kind == before.ticket_kind
            &&& after.priority == before.priority
            &&& after.selection_state == before.selection_state
            &&& after.title == before.title
            &&& after.body == before.body
            &&& after.status() == before.status()
            &&& after.closing_reason == before.closing_reason
            &&& after.container_id == before.container_id
            &&& after.created_seq == before.created_seq
        }),
{
    lemma_has(v, id);
    lemma_receipt_wf(v, id, backend_kind, backend_key, display_id, now);
    let after = receipt_applied(v, id, backend_kind, backend_key, display_id, now)->Ok_0;
    assert(after.items[v.at(id)].id == id);
    crate::tables::lemma_at(after, v.at(id));
}

} // verus!
