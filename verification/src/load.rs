//! Checked writes of whole rows: each is refused, with nothing changed, where
//! the store does not admit it.

use vstd::prelude::*;

use crate::domain::ItemClass;
use crate::graph::{connected, leads_to, pairs_of, Edge};
use crate::keep::{
    container_ok, identity_free, lemma_insert_blocker, lemma_insert_item, lemma_insert_mutation,
    lemma_push_alias, lemma_push_dependency, lemma_push_former, lemma_push_plan, name_free,
};
use crate::rows::{
    text_is, Alias, Dependency, ExternalBlocker, FormerIdentity, Item, ItemView, Mutation,
    MutationView,
};
use crate::tables::{
    blocker_place, keys, lemma_at, mutation_place, place, waits, Fault, Store, StoreView,
};
use crate::text::{folded, not_after, same_folded, same_text};

verus! {

impl Store {
    /// Whether a Display ID or Alias is free, ASCII case ignored.
    pub fn is_name_free(&self, name: &str) -> (r: bool)
        ensures
            r == name_free(self@, name@),
    {
        let mut i: usize = 0;
        while i < self.item_count()
            invariant
                0 <= i <= self@.items.len(),
                forall|k: int|
                    0 <= k < i ==> folded((#[trigger] self@.items[k]).display_id) != folded(name@),
            decreases self@.items.len() - i,
        {
            if same_folded(self.item(i).display_id.as_str(), name) {
                proof {
                    assert(folded(self@.items[i as int].display_id) == folded(name@));
                }
                return false;
            }
            i = i + 1;
        }
        let mut j: usize = 0;
        while j < self.alias_count()
            invariant
                0 <= j <= self@.aliases.len(),
                forall|k: int|
                    0 <= k < j ==> folded((#[trigger] self@.aliases[k]).value) != folded(name@),
            decreases self@.aliases.len() - j,
        {
            if same_folded(self.alias(j).value.as_str(), name) {
                proof {
                    assert(folded(self@.aliases[j as int].value) == folded(name@));
                }
                return false;
            }
            j = j + 1;
        }
        true
    }

    /// Whether no Item but the given one holds or held a Backend identity.
    pub fn is_identity_free(&self, id: &str, kind: &str, key: &str) -> (r: bool)
        ensures
            r == identity_free(self@, id@, Some(kind@), Some(key@)),
    {
        let mut i: usize = 0;
        while i < self.item_count()
            invariant
                0 <= i <= self@.items.len(),
                forall|k: int|
                    0 <= k < i && (#[trigger] self@.items[k]).backend_kind == Some(kind@)
                        && self@.items[k].backend_key == Some(key@) ==> self@.items[k].id == id@,
            decreases self@.items.len() - i,
        {
            let item = self.item(i);
            if text_is(&item.backend_kind, kind) && text_is(&item.backend_key, key)
                && !same_text(item.id.as_str(), id) {
                proof {
                    assert(self@.items[i as int].id != id@);
                }
                return false;
            }
            i = i + 1;
        }
        let mut j: usize = 0;
        while j < self.former_identity_count()
            invariant
                0 <= j <= self@.former_identities.len(),
                forall|k: int|
                    0 <= k < j && Some((#[trigger] self@.former_identities[k]).backend_kind)
                        == Some(kind@) && Some(self@.former_identities[k].backend_key) == Some(
                        key@,
                    ) ==> self@.former_identities[k].item_id == id@,
            decreases self@.former_identities.len() - j,
        {
            let former = self.former_identity(j);
            if same_text(former.backend_kind.as_str(), kind) && same_text(
                former.backend_key.as_str(),
                key,
            ) && !same_text(former.item_id.as_str(), id) {
                proof {
                    assert(self@.former_identities[j as int].item_id != id@);
                }
                return false;
            }
            j = j + 1;
        }
        true
    }

    /// Whether an Item of the class has the internal ID.
    pub fn has_key(&self, id: &str, class: ItemClass) -> (r: bool)
        requires
            self.wf(),
        ensures
            r == keys(self@.items).contains((id@, class)),
    {
        match self.find(id) {
            Some(i) => {
                let found = self.item(i).item_class == class;
                proof {
                    if found {
                        assert(keys(self@.items)[i as int] == (id@, class));
                    } else if keys(self@.items).contains((id@, class)) {
                        let k = choose|k: int|
                            0 <= k < keys(self@.items).len() && keys(self@.items)[k] == (
                                id@,
                                class,
                            );
                        lemma_at(self@, k);
                        lemma_at(self@, i as int);
                    }
                }
                found
            },
            None => {
                proof {
                    if keys(self@.items).contains((id@, class)) {
                        let k = choose|k: int|
                            0 <= k < keys(self@.items).len() && keys(self@.items)[k] == (
                                id@,
                                class,
                            );
                        lemma_at(self@, k);
                    }
                }
                false
            },
        }
    }

    /// Where an Item with the given creation place belongs.
    pub(crate) fn place_of(&self, created_seq: i64) -> (r: usize)
        ensures
            r == place(self@.items, created_seq as int),
            r <= self@.items.len(),
    {
        let mut n: usize = self.item_count();
        proof {
            assert(self@.items.take(n as int) =~= self@.items);
        }
        while n > 0
            invariant
                n <= self@.items.len(),
                place(self@.items, created_seq as int) == place(
                    self@.items.take(n as int),
                    created_seq as int,
                ),
            decreases n,
        {
            let ghost head = self@.items.take(n as int);
            if self.item(n - 1).created_seq <= created_seq {
                proof {
                    assert(head.last() == self@.items[n - 1]);
                }
                return n;
            }
            proof {
                assert(head.last() == self@.items[n - 1]);
                assert(head.drop_last() =~= self@.items.take(n - 1));
            }
            n = n - 1;
        }
        n
    }

    /// Adds an Item in its place.
    pub fn insert_item(&mut self, item: Item) -> (r: Result<(), Fault>)
        requires
            old(self).wf(),
        ensures
            final(self).wf(),
            match r {
                Ok(()) => {
                    &&& item_fault(old(self)@, item@) is None
                    &&& final(self)@ == (StoreView {
                        items: old(self)@.items.insert(
                            place(old(self)@.items, item@.created_seq),
                            item@,
                        ),
                        ..old(self)@
                    })
                },
                Err(fault) => item_fault(old(self)@, item@) == Some(fault) && final(self)@ == old(self)@,
            },
    {
        if !item.is_admitted() {
            return Err(Fault::Check);
        }
        if self.find(item.id.as_str()).is_some() {
            return Err(Fault::IdTaken);
        }
        if !self.is_name_free(item.display_id.as_str()) {
            return Err(Fault::DisplayIdTaken);
        }
        if let Some(kind) = &item.backend_kind {
            if let Some(key) = &item.backend_key {
                if !self.is_identity_free(item.id.as_str(), kind.as_str(), key.as_str()) {
                    return Err(Fault::BackendIdentityTaken);
                }
            }
        }
        if let Some(container) = &item.container_id {
            if !self.has_key(container.as_str(), ItemClass::Epic) {
                return Err(Fault::ForeignKey);
            }
        }
        let at: usize = self.place_of(item.created_seq);
        proof {
            lemma_insert_item(self@, item@);
        }
        self.insert_item_row(at, item);
        Ok(())
    }

    /// Adds an Alias of an Item.
    pub fn insert_alias(&mut self, alias: Alias) -> (r: Result<(), Fault>)
        requires
            old(self).wf(),
        ensures
            final(self).wf(),
            match r {
                Ok(()) => {
                    &&& old(self)@.has(alias@.item_id)
                    &&& name_free(old(self)@, alias@.value)
                    &&& final(self)@ == (StoreView {
                        aliases: old(self)@.aliases.push(alias@),
                        ..old(self)@
                    })
                },
                Err(Fault::ForeignKey) => !old(self)@.has(alias@.item_id) && final(self)@ == old(self)@,
                Err(Fault::DisplayIdTaken) => {
                    &&& old(self)@.has(alias@.item_id)
                    &&& !name_free(old(self)@, alias@.value)
                    &&& final(self)@ == old(self)@
                },
                Err(_) => false,
            },
    {
        if self.find(alias.item_id.as_str()).is_none() {
            return Err(Fault::ForeignKey);
        }
        if !self.is_name_free(alias.value.as_str()) {
            return Err(Fault::DisplayIdTaken);
        }
        proof {
            lemma_push_alias(self@, alias@);
        }
        self.push_alias(alias);
        Ok(())
    }

    /// The Dependencies as edges from the waiting Item to the one it waits for.
    pub(crate) fn wait_edges(&self) -> (r: Vec<Edge>)
        ensures
            pairs_of(r@) == waits(self@.dependencies),
    {
        let mut out: Vec<Edge> = Vec::new();
        let mut i: usize = 0;
        while i < self.dependency_count()
            invariant
                0 <= i <= self@.dependencies.len(),
                out@.len() == i,
                pairs_of(out@) == waits(self@.dependencies).take(i as int),
            decreases self@.dependencies.len() - i,
        {
            let d = self.dependency(i);
            let ghost before = out@;
            out.push(Edge { src: d.blocked_id.clone(), dst: d.blocking_id.clone() });
            i = i + 1;
            proof {
                assert(pairs_of(out@) =~= pairs_of(before).push(
                    waits(self@.dependencies)[i - 1],
                ));
                assert(pairs_of(out@) =~= waits(self@.dependencies).take(i as int));
            }
        }
        proof {
            assert(pairs_of(out@) =~= waits(self@.dependencies));
        }
        out
    }

    /// Where a Dependency stands, if it is there.
    pub(crate) fn find_dependency(&self, blocked_id: &str, blocking_id: &str) -> (r: Option<usize>)
        ensures
            match r {
                Some(i) => {
                    &&& i < self@.dependencies.len()
                    &&& waits(self@.dependencies)[i as int] == (blocked_id@, blocking_id@)
                    &&& self@.has_dependency(blocked_id@, blocking_id@)
                },
                None => !self@.has_dependency(blocked_id@, blocking_id@),
            },
    {
        let mut i: usize = 0;
        while i < self.dependency_count()
            invariant
                0 <= i <= self@.dependencies.len(),
                forall|k: int|
                    0 <= k < i ==> waits(self@.dependencies)[k] != (blocked_id@, blocking_id@),
            decreases self@.dependencies.len() - i,
        {
            let d = self.dependency(i);
            if same_text(d.blocked_id.as_str(), blocked_id) && same_text(
                d.blocking_id.as_str(),
                blocking_id,
            ) {
                proof {
                    assert(waits(self@.dependencies)[i as int] == (blocked_id@, blocking_id@));
                }
                return Some(i);
            }
            i = i + 1;
        }
        None
    }

    /// Adds a Dependency between Items.
    pub fn insert_dependency(&mut self, dependency: Dependency) -> (r: Result<(), Fault>)
        requires
            old(self).wf(),
        ensures
            final(self).wf(),
            match r {
                Ok(()) => {
                    &&& dependency_fault(old(self)@, dependency@) is None
                    &&& final(self)@ == (StoreView {
                        dependencies: old(self)@.dependencies.push(dependency@),
                        ..old(self)@
                    })
                },
                Err(fault) => dependency_fault(old(self)@, dependency@) == Some(fault) && final(self)@ == old(self)@,
            },
    {
        if self.find(dependency.blocking_id.as_str()).is_none() || self.find(
            dependency.blocked_id.as_str(),
        ).is_none() {
            return Err(Fault::ForeignKey);
        }
        if self.find_dependency(
            dependency.blocked_id.as_str(),
            dependency.blocking_id.as_str(),
        ).is_some() {
            return Err(Fault::DependencyTaken);
        }
        let edges = self.wait_edges();
        if leads_to(&edges, dependency.blocking_id.as_str(), dependency.blocked_id.as_str()) {
            return Err(Fault::Cycle);
        }
        proof {
            lemma_push_dependency(self@, dependency@);
        }
        self.push_dependency(dependency);
        Ok(())
    }

    /// Adds an External Blocker of an Item in its place.
    pub fn insert_external_blocker(&mut self, blocker: ExternalBlocker) -> (r: Result<(), Fault>)
        requires
            old(self).wf(),
        ensures
            final(self).wf(),
            match r {
                Ok(()) => {
                    &&& old(self)@.has(blocker@.item_id)
                    &&& final(self)@ == (StoreView {
                        external_blockers: old(self)@.external_blockers.insert(
                            blocker_place(old(self)@.external_blockers, blocker@),
                            blocker@,
                        ),
                        ..old(self)@
                    })
                },
                Err(fault) => {
                    &&& fault == Fault::ForeignKey
                    &&& !old(self)@.has(blocker@.item_id)
                    &&& final(self)@ == old(self)@
                },
            },
    {
        if self.find(blocker.item_id.as_str()).is_none() {
            return Err(Fault::ForeignKey);
        }
        let mut n: usize = self.external_blocker_count();
        proof {
            assert(self@.external_blockers.take(n as int) =~= self@.external_blockers);
            lemma_insert_blocker(self@, blocker@);
        }
        while n > 0
            invariant_except_break
                n <= self@.external_blockers.len(),
                blocker_place(self@.external_blockers, blocker@) == blocker_place(
                    self@.external_blockers.take(n as int),
                    blocker@,
                ),
            ensures
                n == blocker_place(self@.external_blockers, blocker@),
            decreases n,
        {
            let ghost head = self@.external_blockers.take(n as int);
            let last = self.external_blocker(n - 1);
            proof {
                assert(head.last() == self@.external_blockers[n - 1]);
                assert(head.drop_last() =~= self@.external_blockers.take(n - 1));
            }
            let fits = if same_text(last.created_at.as_str(), blocker.created_at.as_str()) {
                not_after(last.id.as_str(), blocker.id.as_str())
            } else {
                not_after(last.created_at.as_str(), blocker.created_at.as_str())
            };
            if fits {
                break;
            }
            n = n - 1;
        }
        self.insert_blocker_row(n, blocker);
        Ok(())
    }

    /// Where a Mutation with the given sequence belongs.
    pub(crate) fn mutation_place_of(&self, sequence: i64) -> (r: usize)
        ensures
            r == mutation_place(self@.mutations, sequence as int),
            r <= self@.mutations.len(),
    {
        let mut n: usize = self.mutation_count();
        proof {
            assert(self@.mutations.take(n as int) =~= self@.mutations);
        }
        while n > 0
            invariant
                n <= self@.mutations.len(),
                mutation_place(self@.mutations, sequence as int) == mutation_place(
                    self@.mutations.take(n as int),
                    sequence as int,
                ),
            decreases n,
        {
            let ghost head = self@.mutations.take(n as int);
            proof {
                assert(head.last() == self@.mutations[n - 1]);
            }
            if self.mutation(n - 1).sequence <= sequence {
                return n;
            }
            proof {
                assert(head.drop_last() =~= self@.mutations.take(n - 1));
            }
            n = n - 1;
        }
        n
    }

    /// Where the Mutation with the sequence stands, if there is one.
    pub fn find_mutation(&self, sequence: i64) -> (r: Option<usize>)
        ensures
            match r {
                Some(i) => i < self@.mutations.len() && self@.mutations[i as int].sequence
                    == sequence,
                None => !self@.has_mutation(sequence as int),
            },
    {
        let mut i: usize = 0;
        while i < self.mutation_count()
            invariant
                0 <= i <= self@.mutations.len(),
                forall|k: int| 0 <= k < i ==> (#[trigger] self@.mutations[k]).sequence != sequence,
            decreases self@.mutations.len() - i,
        {
            if self.mutation(i).sequence == sequence {
                return Some(i);
            }
            i = i + 1;
        }
        None
    }

    /// Adds a Mutation of an Item in its place.
    pub fn insert_mutation(&mut self, mutation: Mutation) -> (r: Result<(), Fault>)
        requires
            old(self).wf(),
        ensures
            final(self).wf(),
            match r {
                Ok(()) => {
                    &&& mutation_fault(old(self)@, mutation@) is None
                    &&& final(self)@ == with_mutation(old(self)@, mutation@)
                },
                Err(fault) => mutation_fault(old(self)@, mutation@) == Some(fault) && final(self)@
                    == old(self)@,
            },
    {
        if !mutation.is_admitted() {
            return Err(Fault::Check);
        }
        if self.find_mutation(mutation.sequence).is_some() {
            proof {
                assert(self@.has_mutation(mutation@.sequence));
            }
            return Err(Fault::SequenceTaken);
        }
        if !self.has_key(mutation.item_id.as_str(), mutation.item_class) {
            return Err(Fault::ForeignKey);
        }
        let at: usize = self.mutation_place_of(mutation.sequence);
        proof {
            lemma_insert_mutation(self@, mutation@);
        }
        self.insert_mutation_row(at, mutation);
        Ok(())
    }

    /// Records a Backend identity that an Item held.
    pub fn insert_former_identity(&mut self, former: FormerIdentity) -> (r: Result<(), Fault>)
        requires
            old(self).wf(),
        ensures
            final(self).wf(),
            match r {
                Ok(()) => {
                    &&& old(self)@.has(former@.item_id)
                    &&& identity_free(
                        old(self)@,
                        former@.item_id,
                        Some(former@.backend_kind),
                        Some(former@.backend_key),
                    )
                    &&& final(self)@ == (StoreView {
                        former_identities: old(self)@.former_identities.push(former@),
                        ..old(self)@
                    })
                },
                Err(Fault::ForeignKey) => !old(self)@.has(former@.item_id) && final(self)@ == old(self)@,
                Err(Fault::BackendIdentityTaken) => {
                    &&& old(self)@.has(former@.item_id)
                    &&& !identity_free(
                        old(self)@,
                        former@.item_id,
                        Some(former@.backend_kind),
                        Some(former@.backend_key),
                    )
                    &&& final(self)@ == old(self)@
                },
                Err(_) => false,
            },
    {
        if self.find(former.item_id.as_str()).is_none() {
            return Err(Fault::ForeignKey);
        }
        if !self.is_identity_free(
            former.item_id.as_str(),
            former.backend_kind.as_str(),
            former.backend_key.as_str(),
        ) {
            return Err(Fault::BackendIdentityTaken);
        }
        proof {
            lemma_push_former(self@, former@);
        }
        self.push_former(former);
        Ok(())
    }

    /// Whether an Item is a member of the Plan.
    pub fn in_plan(&self, id: &str) -> (r: bool)
        ensures
            r == self@.plan.contains(id@),
    {
        let mut i: usize = 0;
        while i < self.plan_count()
            invariant
                0 <= i <= self@.plan.len(),
                forall|k: int| 0 <= k < i ==> self@.plan[k] != id@,
            decreases self@.plan.len() - i,
        {
            if same_text(self.plan_member(i).as_str(), id) {
                proof {
                    assert(self@.plan[i as int] == id@);
                }
                return true;
            }
            i = i + 1;
        }
        false
    }

    /// Makes a Ticket a member of the Plan, if it is none yet.
    pub fn insert_plan_member(&mut self, id: &str) -> (r: Result<(), Fault>)
        requires
            old(self).wf(),
        ensures
            final(self).wf(),
            match r {
                Ok(()) => {
                    &&& keys(old(self)@.items).contains((id@, ItemClass::Ticket))
                    &&& final(self)@ == (StoreView {
                        plan: if old(self)@.plan.contains(id@) {
                            old(self)@.plan
                        } else {
                            old(self)@.plan.push(id@)
                        },
                        ..old(self)@
                    })
                },
                Err(fault) => {
                    &&& fault == Fault::ForeignKey
                    &&& !keys(old(self)@.items).contains((id@, ItemClass::Ticket))
                    &&& final(self)@ == old(self)@
                },
            },
    {
        if !self.has_key(id, ItemClass::Ticket) {
            return Err(Fault::ForeignKey);
        }
        if self.in_plan(id) {
            return Ok(());
        }
        proof {
            lemma_push_plan(self@, id@);
        }
        self.push_plan(id.to_owned());
        Ok(())
    }
}

/// Why the store does not admit a new Item, if it does not.
pub open spec fn item_fault(v: StoreView, item: ItemView) -> Option<Fault> {
    if !item.admitted() {
        Some(Fault::Check)
    } else if v.has(item.id) {
        Some(Fault::IdTaken)
    } else if !name_free(v, item.display_id) {
        Some(Fault::DisplayIdTaken)
    } else if !identity_free(v, item.id, item.backend_kind, item.backend_key) {
        Some(Fault::BackendIdentityTaken)
    } else if !container_ok(v, item.container_id) {
        Some(Fault::ForeignKey)
    } else {
        None
    }
}

/// Why the store does not admit a new Dependency, if it does not.
pub open spec fn dependency_fault(
    v: StoreView,
    dependency: crate::rows::DependencyView,
) -> Option<Fault> {
    if !v.has(dependency.blocking_id) || !v.has(dependency.blocked_id) {
        Some(Fault::ForeignKey)
    } else if v.has_dependency(dependency.blocked_id, dependency.blocking_id) {
        Some(Fault::DependencyTaken)
    } else if connected(waits(v.dependencies), dependency.blocking_id, dependency.blocked_id) {
        Some(Fault::Cycle)
    } else {
        None
    }
}

/// Why the store does not admit a new Mutation, if it does not.
pub open spec fn mutation_fault(v: StoreView, mutation: MutationView) -> Option<Fault> {
    if !mutation.admitted() {
        Some(Fault::Check)
    } else if v.has_mutation(mutation.sequence) {
        Some(Fault::SequenceTaken)
    } else if !keys(v.items).contains((mutation.item_id, mutation.item_class)) {
        Some(Fault::ForeignKey)
    } else {
        None
    }
}

/// The store with one more Mutation, in its place.
pub open spec fn with_mutation(v: StoreView, mutation: MutationView) -> StoreView {
    StoreView {
        mutations: v.mutations.insert(mutation_place(v.mutations, mutation.sequence), mutation),
        ..v
    }
}

} // verus!
