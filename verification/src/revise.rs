//! The checked replacement of an Item's row, under the rule that a done Item
//! stays done.

use vstd::prelude::*;

use crate::domain::{ItemClass, Lifecycle, MutationState, MutationType, Origin};
use crate::keep::{
    container_ok, identity_free, lemma_edit_item, lemma_rename_item, name_free_for,
};
use crate::payload::{json_member, read_member};
use crate::repository::detach::is_name_free_for;
use crate::rows::{text_is, FormerIdentityView, Item, ItemView, MutationView};
use crate::tables::{keys, lemma_at, Fault, Store, StoreView};
use crate::text::same_text;

verus! {

/// Whether a former Backend identity is the one that the Item takes again.
pub open spec fn rebinds(item: ItemView, former: FormerIdentityView) -> bool {
    &&& former.item_id == item.id
    &&& item.backend_kind == Some(former.backend_kind)
    &&& item.backend_key == Some(former.backend_key)
}

/// Whether a Mutation is a close of the Item that the Backend rejected.
pub open spec fn failed_close(item: ItemView, mutation: MutationView) -> bool {
    &&& mutation.item_id == item.id
    &&& mutation.item_class == item.item_class
    &&& mutation.mutation_type == MutationType::SetItemStatus
    &&& mutation.state == MutationState::Failed
    &&& json_member(mutation.payload_json, "status"@) == Some("done"@)
}

/// Whether a done Item may be opened again: it takes back a Backend identity of
/// its own, or its close was rejected.
pub open spec fn may_reopen(v: StoreView, before: ItemView, item: ItemView) -> bool {
    ||| before.origin == Origin::Local && item.origin == Origin::Backend && exists|i: int|
        0 <= i < v.former_identities.len() && rebinds(item, #[trigger] v.former_identities[i])
    ||| exists|i: int| 0 <= i < v.mutations.len() && failed_close(item, #[trigger] v.mutations[i])
}

/// Why an Item's row is not replaced, if it is not.
pub open spec fn revision_fault(v: StoreView, item: ItemView) -> Option<Fault> {
    if !v.has(item.id) {
        Some(Fault::NoRow)
    } else {
        let before = v.item(item.id);
        if before.lifecycle == Lifecycle::Done && item.lifecycle != Lifecycle::Done && !may_reopen(
            v,
            before,
            item,
        ) {
            Some(Fault::DoneIsTerminal)
        } else if !identity_free(v, item.id, item.backend_kind, item.backend_key) {
            Some(Fault::BackendIdentityTaken)
        } else if !item.admitted() || item.item_class != before.item_class || item.created_seq
            != before.created_seq {
            Some(Fault::Check)
        } else if !name_free_for(v, item.id, item.display_id) {
            Some(Fault::DisplayIdTaken)
        } else if !container_ok(v, item.container_id) {
            Some(Fault::ForeignKey)
        } else {
            None
        }
    }
}

proof fn lemma_revise(v: StoreView, i: int, item: ItemView)
    requires
        v.wf(),
        0 <= i < v.items.len(),
        v.items[i].id == item.id,
        revision_fault(v, item) is None,
    ensures
        v.at(item.id) == i,
        v.with_item(item).wf(),
{
    lemma_at(v, i);
    let renamed = ItemView { container_id: v.items[i].container_id, ..item };
    lemma_rename_item(v, i, renamed);
    let w = StoreView { items: v.items.update(i, renamed), ..v };
    assert(keys(w.items) == keys(v.items));
    lemma_edit_item(w, i, item);
    assert(w.items.update(i, item) =~= v.items.update(i, item));
}

impl Store {
    fn takes_back(&self, item: &Item) -> (r: bool)
        ensures
            r == exists|i: int|
                0 <= i < self@.former_identities.len() && rebinds(
                    item@,
                    #[trigger] self@.former_identities[i],
                ),
    {
        let mut i: usize = 0;
        while i < self.former_identity_count()
            invariant
                0 <= i <= self@.former_identities.len(),
                forall|k: int|
                    0 <= k < i ==> !rebinds(item@, #[trigger] self@.former_identities[k]),
            decreases self@.former_identities.len() - i,
        {
            let former = self.former_identity(i);
            if same_text(former.item_id.as_str(), item.id.as_str()) && text_is(
                &item.backend_kind,
                former.backend_kind.as_str(),
            ) && text_is(&item.backend_key, former.backend_key.as_str()) {
                proof {
                    assert(rebinds(item@, self@.former_identities[i as int]));
                }
                return true;
            }
            i = i + 1;
        }
        false
    }

    fn close_failed(&self, item: &Item) -> (r: bool)
        ensures
            r == exists|i: int|
                0 <= i < self@.mutations.len() && failed_close(item@, #[trigger] self@.mutations[i]),
    {
        let mut i: usize = 0;
        while i < self.mutation_count()
            invariant
                0 <= i <= self@.mutations.len(),
                forall|k: int| 0 <= k < i ==> !failed_close(item@, #[trigger] self@.mutations[k]),
            decreases self@.mutations.len() - i,
        {
            let mutation = self.mutation(i);
            if same_text(mutation.item_id.as_str(), item.id.as_str()) && mutation.item_class
                == item.item_class && mutation.mutation_type == MutationType::SetItemStatus
                && mutation.state == MutationState::Failed {
                let closes = match read_member(mutation.payload_json.as_str(), "status") {
                    Some(status) => same_text(status.as_str(), "done"),
                    None => false,
                };
                if closes {
                    proof {
                        assert(failed_close(item@, self@.mutations[i as int]));
                    }
                    return true;
                }
            }
            i = i + 1;
        }
        false
    }

    /// Replaces the row of the Item with the same internal ID. Its class and its
    /// place in creation order stay; a done Item stays done, unless it takes back
    /// a Backend identity of its own or its close was rejected.
    pub fn replace_item(&mut self, item: Item) -> (r: Result<(), Fault>)
        requires
            old(self).wf(),
        ensures
            final(self).wf(),
            match r {
                Ok(()) => {
                    &&& revision_fault(old(self)@, item@) is None
                    &&& final(self)@ == old(self)@.with_item(item@)
                },
                Err(fault) => {
                    &&& revision_fault(old(self)@, item@) == Some(fault)
                    &&& final(self)@ == old(self)@
                },
            },
    {
        let i: usize = match self.find(item.id.as_str()) {
            Some(i) => i,
            None => {
                return Err(Fault::NoRow);
            },
        };
        proof {
            lemma_at(self@, i as int);
        }
        let before = self.item(i);
        if before.lifecycle == Lifecycle::Done && item.lifecycle != Lifecycle::Done {
            let rebound = before.origin == Origin::Local && item.origin == Origin::Backend
                && self.takes_back(&item);
            if !rebound && !self.close_failed(&item) {
                return Err(Fault::DoneIsTerminal);
            }
        }
        if let Some(kind) = &item.backend_kind {
            if let Some(key) = &item.backend_key {
                if !self.is_identity_free(item.id.as_str(), kind.as_str(), key.as_str()) {
                    return Err(Fault::BackendIdentityTaken);
                }
            }
        }
        if !item.is_admitted() || item.item_class != before.item_class || item.created_seq
            != before.created_seq {
            return Err(Fault::Check);
        }
        if !is_name_free_for(self, item.id.as_str(), item.display_id.as_str()) {
            return Err(Fault::DisplayIdTaken);
        }
        if let Some(container) = &item.container_id {
            if !self.has_key(container.as_str(), ItemClass::Epic) {
                return Err(Fault::ForeignKey);
            }
        }
        proof {
            lemma_revise(self@, i as int, item@);
        }
        self.put_item(i, item);
        Ok(())
    }
}

/// A done Item without a rejected close and without a former Backend identity
/// stays done, whatever else is written.
pub proof fn law_done_items_stay_done(v: StoreView, item: ItemView)
    requires
        v.wf(),
        v.has(item.id),
        v.item(item.id).lifecycle == Lifecycle::Done,
        revision_fault(v, item) is None,
        forall|i: int|
            0 <= i < v.former_identities.len() ==> (#[trigger] v.former_identities[i]).item_id
                != item.id,
        forall|i: int| 0 <= i < v.mutations.len() ==> !failed_close(item, #[trigger] v.mutations[i]),
    ensures
        item.lifecycle == Lifecycle::Done,
{
}

} // verus!
