//! The store: its tables, what they hold to, and the primitive reads and
//! writes that every operation is made of.

use vstd::prelude::*;

use crate::domain::{BackendKind, ItemClass};
use crate::graph::{acyclic, texts};
use crate::rows::{
    copy_text, opt_text, Alias, AliasView, Dependency, DependencyView, ExternalBlocker,
    ExternalBlockerView, FormerIdentity, FormerIdentityView, Item, ItemView, Mutation, MutationView,
    SyncCursor, SyncCursorView,
};
use crate::text::{folded, same_text, text_le};

verus! {

/// A write that the store does not admit.
#[derive(Clone, Copy, Debug, PartialEq, Eq, Structural)]
pub enum Fault {
    /// No row has the given ID.
    NoRow,
    /// Another Item has the same internal ID.
    IdTaken,
    /// The Display ID or Alias already names an Item.
    DisplayIdTaken,
    /// Another Item holds or held the Backend identity.
    BackendIdentityTaken,
    /// Another Mutation has the same sequence.
    SequenceTaken,
    /// The Dependency is there already.
    DependencyTaken,
    /// A row refers to an Item that is not there.
    ForeignKey,
    /// The row is not one that the table admits.
    Check,
    /// The Dependency would close a cycle.
    Cycle,
    /// A done Item may not be opened again.
    DoneIsTerminal,
    /// A counter would pass the largest number.
    Overflow,
}

/// A named counter.
#[derive(Clone, Copy, Debug, PartialEq, Eq, Structural)]
pub enum Counter {
    ItemCreated,
    Display,
    Mutation,
}

/// The model of [`Store`].
#[verifier::ext_equal]
pub struct StoreView {
    /// The Items, in creation order.
    pub items: Seq<ItemView>,
    pub aliases: Seq<AliasView>,
    pub dependencies: Seq<DependencyView>,
    /// The External Blockers, by creation time and then ID.
    pub external_blockers: Seq<ExternalBlockerView>,
    /// The Mutations, in Mutation Sequence order.
    pub mutations: Seq<MutationView>,
    pub item_created_seq: Option<int>,
    pub display_seq: Option<int>,
    pub mutation_seq: Option<int>,
    pub display_prefix: Option<Seq<char>>,
    /// The Backend of the primary Remote.
    pub remote_kind: Option<BackendKind>,
    pub cursor: Option<SyncCursorView>,
    pub former_identities: Seq<FormerIdentityView>,
    /// The internal IDs of the Plan's members, in the order they joined.
    pub plan: Seq<Seq<char>>,
}

/// The internal IDs of Items.
pub open spec fn ids(items: Seq<ItemView>) -> Seq<Seq<char>> {
    Seq::new(items.len(), |i: int| items[i].id)
}

/// The internal IDs of Items, each with its class.
pub open spec fn keys(items: Seq<ItemView>) -> Seq<(Seq<char>, ItemClass)> {
    Seq::new(items.len(), |i: int| (items[i].id, items[i].item_class))
}

/// The Dependencies as edges from the waiting Item to the one it waits for.
pub open spec fn waits(dependencies: Seq<DependencyView>) -> Seq<(Seq<char>, Seq<char>)> {
    Seq::new(
        dependencies.len(),
        |i: int| (dependencies[i].blocked_id, dependencies[i].blocking_id),
    )
}

/// No two Items share an internal ID.
pub open spec fn ids_distinct(items: Seq<ItemView>) -> bool {
    ids(items).no_duplicates()
}

/// The Items stand in creation order.
pub open spec fn created_in_order(items: Seq<ItemView>) -> bool {
    forall|i: int, j: int|
        0 <= i <= j < items.len() ==> (#[trigger] items[i]).created_seq <= (
        #[trigger] items[j]).created_seq
}

/// Every Item is one that the store admits.
pub open spec fn all_admitted(items: Seq<ItemView>) -> bool {
    forall|i: int| 0 <= i < items.len() ==> (#[trigger] items[i]).admitted()
}

/// What contains an Item is an Epic of the store.
pub open spec fn contained_in_epics(items: Seq<ItemView>) -> bool {
    forall|i: int|
        0 <= i < items.len() && (#[trigger] items[i]).container_id is Some ==> keys(items).contains(
            (items[i].container_id->0, ItemClass::Epic),
        )
}

/// Whether two Items hold the same Backend identity.
pub open spec fn same_identity(a: ItemView, b: ItemView) -> bool {
    &&& a.backend_kind is Some
    &&& a.backend_key is Some
    &&& a.backend_kind == b.backend_kind
    &&& a.backend_key == b.backend_key
}

/// No two Items hold the same Backend identity.
pub open spec fn identities_distinct(items: Seq<ItemView>) -> bool {
    forall|i: int, j: int|
        0 <= i < items.len() && 0 <= j < items.len() && i != j ==> !same_identity(
            #[trigger] items[i],
            #[trigger] items[j],
        )
}

/// No two Items share a Display ID, ASCII case ignored.
pub open spec fn displays_distinct(items: Seq<ItemView>) -> bool {
    forall|i: int, j: int|
        0 <= i < items.len() && 0 <= j < items.len() && i != j ==> folded(
            (#[trigger] items[i]).display_id,
        ) != folded((#[trigger] items[j]).display_id)
}

/// No Alias stands twice, ASCII case ignored.
pub open spec fn aliases_distinct(aliases: Seq<AliasView>) -> bool {
    forall|i: int, j: int|
        0 <= i < aliases.len() && 0 <= j < aliases.len() && i != j ==> folded(
            (#[trigger] aliases[i]).value,
        ) != folded((#[trigger] aliases[j]).value)
}

/// No Alias is also a Display ID, ASCII case ignored.
pub open spec fn aliases_apart(items: Seq<ItemView>, aliases: Seq<AliasView>) -> bool {
    forall|i: int, j: int|
        0 <= i < items.len() && 0 <= j < aliases.len() ==> folded(
            (#[trigger] items[i]).display_id,
        ) != folded((#[trigger] aliases[j]).value)
}

/// Every Alias belongs to an Item.
pub open spec fn aliases_owned(known: Seq<Seq<char>>, aliases: Seq<AliasView>) -> bool {
    forall|i: int| 0 <= i < aliases.len() ==> known.contains((#[trigger] aliases[i]).item_id)
}

/// Both ends of every Dependency are Items, none stands twice, and they close
/// no cycle.
pub open spec fn dependencies_ok(
    known: Seq<Seq<char>>,
    dependencies: Seq<DependencyView>,
) -> bool {
    &&& forall|i: int|
        0 <= i < dependencies.len() ==> known.contains((#[trigger] dependencies[i]).blocking_id)
            && known.contains(dependencies[i].blocked_id)
    &&& waits(dependencies).no_duplicates()
    &&& acyclic(waits(dependencies))
}

/// Whether one External Blocker does not come after another.
pub open spec fn blocker_le(a: ExternalBlockerView, b: ExternalBlockerView) -> bool {
    if a.created_at == b.created_at {
        text_le(a.id, b.id)
    } else {
        text_le(a.created_at, b.created_at)
    }
}

/// Every External Blocker belongs to an Item, and they stand in order.
pub open spec fn blockers_ok(
    known: Seq<Seq<char>>,
    blockers: Seq<ExternalBlockerView>,
) -> bool {
    &&& forall|i: int| 0 <= i < blockers.len() ==> known.contains((#[trigger] blockers[i]).item_id)
    &&& forall|i: int, j: int|
        0 <= i < j < blockers.len() ==> blocker_le(#[trigger] blockers[i], #[trigger] blockers[j])
}

/// Every Mutation is one that the store admits and targets an Item of its
/// class, and they stand in Mutation Sequence order, no sequence twice.
pub open spec fn mutations_ok(
    known: Seq<(Seq<char>, ItemClass)>,
    mutations: Seq<MutationView>,
) -> bool {
    &&& forall|i: int|
        0 <= i < mutations.len() ==> known.contains(
            ((#[trigger] mutations[i]).item_id, mutations[i].item_class),
        )
    &&& forall|i: int| 0 <= i < mutations.len() ==> (#[trigger] mutations[i]).admitted()
    &&& forall|i: int, j: int|
        0 <= i < j < mutations.len() ==> (#[trigger] mutations[i]).sequence < (
        #[trigger] mutations[j]).sequence
}

/// A former Backend identity belongs to an Item, and no other Item holds it.
pub open spec fn formers_ok(items: Seq<ItemView>, formers: Seq<FormerIdentityView>) -> bool {
    &&& forall|i: int| 0 <= i < formers.len() ==> ids(items).contains((#[trigger] formers[i]).item_id)
    &&& forall|i: int, j: int|
        0 <= i < items.len() && 0 <= j < formers.len() && (#[trigger] items[i]).backend_kind
            == Some((#[trigger] formers[j]).backend_kind) && items[i].backend_key == Some(
            formers[j].backend_key,
        ) ==> items[i].id == formers[j].item_id
}

/// Every member of the Plan is a Ticket, and none stands twice.
pub open spec fn plan_ok(known: Seq<(Seq<char>, ItemClass)>, plan: Seq<Seq<char>>) -> bool {
    &&& forall|i: int|
        0 <= i < plan.len() ==> known.contains((#[trigger] plan[i], ItemClass::Ticket))
    &&& plan.no_duplicates()
}

impl StoreView {
    /// What every store holds to.
    pub open spec fn wf(self) -> bool {
        &&& ids_distinct(self.items)
        &&& created_in_order(self.items)
        &&& all_admitted(self.items)
        &&& contained_in_epics(self.items)
        &&& identities_distinct(self.items)
        &&& displays_distinct(self.items)
        &&& aliases_distinct(self.aliases)
        &&& aliases_apart(self.items, self.aliases)
        &&& aliases_owned(ids(self.items), self.aliases)
        &&& dependencies_ok(ids(self.items), self.dependencies)
        &&& blockers_ok(ids(self.items), self.external_blockers)
        &&& mutations_ok(keys(self.items), self.mutations)
        &&& formers_ok(self.items, self.former_identities)
        &&& plan_ok(keys(self.items), self.plan)
    }

    /// Whether an Item has the internal ID.
    pub open spec fn has(self, id: Seq<char>) -> bool {
        ids(self.items).contains(id)
    }

    /// Where the Item with the internal ID stands.
    pub open spec fn at(self, id: Seq<char>) -> int {
        ids(self.items).index_of(id)
    }

    /// The Item with the internal ID.
    pub open spec fn item(self, id: Seq<char>) -> ItemView {
        self.items[self.at(id)]
    }

    /// Whether an Epic has the internal ID.
    pub open spec fn has_epic(self, id: Seq<char>) -> bool {
        keys(self.items).contains((id, ItemClass::Epic))
    }

    /// The store with the Item of the same internal ID replaced.
    pub open spec fn with_item(self, item: ItemView) -> StoreView {
        StoreView { items: self.items.update(self.at(item.id), item), ..self }
    }

    /// Whether a Display ID or Alias names the Item, ASCII case ignored.
    pub open spec fn names(self, arg: Seq<char>, id: Seq<char>) -> bool {
        ||| exists|i: int|
            0 <= i < self.items.len() && (#[trigger] self.items[i]).id == id && folded(
                self.items[i].display_id,
            ) == folded(arg)
        ||| exists|i: int|
            0 <= i < self.aliases.len() && (#[trigger] self.aliases[i]).item_id == id && folded(
                self.aliases[i].value,
            ) == folded(arg)
    }

    /// The Item that a Display ID or Alias names, if any.
    pub open spec fn resolved(self, arg: Seq<char>) -> Option<Seq<char>> {
        if exists|id: Seq<char>| self.names(arg, id) {
            Some(choose|id: Seq<char>| self.names(arg, id))
        } else {
            None
        }
    }

    /// Whether the Dependency is there.
    pub open spec fn has_dependency(self, blocked_id: Seq<char>, blocking_id: Seq<char>) -> bool {
        waits(self.dependencies).contains((blocked_id, blocking_id))
    }

    /// The value of a counter, if it is there.
    pub open spec fn counter(self, counter: Counter) -> Option<int> {
        match counter {
            Counter::ItemCreated => self.item_created_seq,
            Counter::Display => self.display_seq,
            Counter::Mutation => self.mutation_seq,
        }
    }

    /// The store with a counter at another value.
    pub open spec fn with_counter(self, counter: Counter, value: Option<int>) -> StoreView {
        match counter {
            Counter::ItemCreated => StoreView { item_created_seq: value, ..self },
            Counter::Display => StoreView { display_seq: value, ..self },
            Counter::Mutation => StoreView { mutation_seq: value, ..self },
        }
    }

    /// Where the Mutation with the sequence stands.
    pub open spec fn has_mutation(self, sequence: int) -> bool {
        exists|i: int| 0 <= i < self.mutations.len() && (#[trigger] self.mutations[i]).sequence
            == sequence
    }
}

/// Where an Item with the given creation place belongs among Items in
/// creation order: behind every Item that does not come later.
pub open spec fn place(items: Seq<ItemView>, created_seq: int) -> int
    decreases items.len(),
{
    if items.len() == 0 || items.last().created_seq <= created_seq {
        items.len() as int
    } else {
        place(items.drop_last(), created_seq)
    }
}

/// Where a Mutation belongs among Mutations in sequence order.
pub open spec fn mutation_place(mutations: Seq<MutationView>, sequence: int) -> int
    decreases mutations.len(),
{
    if mutations.len() == 0 || mutations.last().sequence <= sequence {
        mutations.len() as int
    } else {
        mutation_place(mutations.drop_last(), sequence)
    }
}

/// Where an External Blocker belongs among External Blockers in order.
pub open spec fn blocker_place(
    blockers: Seq<ExternalBlockerView>,
    blocker: ExternalBlockerView,
) -> int
    decreases blockers.len(),
{
    if blockers.len() == 0 || blocker_le(blockers.last(), blocker) {
        blockers.len() as int
    } else {
        blocker_place(blockers.drop_last(), blocker)
    }
}

/// The tables of one repository's store.
pub struct Store {
    items: Vec<Item>,
    aliases: Vec<Alias>,
    dependencies: Vec<Dependency>,
    external_blockers: Vec<ExternalBlocker>,
    mutations: Vec<Mutation>,
    item_created_seq: Option<i64>,
    display_seq: Option<i64>,
    mutation_seq: Option<i64>,
    display_prefix: Option<String>,
    remote_kind: Option<BackendKind>,
    cursor: Option<SyncCursor>,
    former_identities: Vec<FormerIdentity>,
    plan: Vec<String>,
}

/// An optional number as an integer.
pub open spec fn opt_int(n: Option<i64>) -> Option<int> {
    match n {
        Some(n) => Some(n as int),
        None => None,
    }
}

impl View for Store {
    type V = StoreView;

    closed spec fn view(&self) -> StoreView {
        StoreView {
            items: self.items@.map_values(|r: Item| r@),
            aliases: self.aliases@.map_values(|r: Alias| r@),
            dependencies: self.dependencies@.map_values(|r: Dependency| r@),
            external_blockers: self.external_blockers@.map_values(|r: ExternalBlocker| r@),
            mutations: self.mutations@.map_values(|r: Mutation| r@),
            item_created_seq: opt_int(self.item_created_seq),
            display_seq: opt_int(self.display_seq),
            mutation_seq: opt_int(self.mutation_seq),
            display_prefix: opt_text(self.display_prefix),
            remote_kind: self.remote_kind,
            cursor: match self.cursor {
                Some(cursor) => Some(cursor@),
                None => None,
            },
            former_identities: self.former_identities@.map_values(|r: FormerIdentity| r@),
            plan: texts(self.plan@),
        }
    }
}

impl Store {
    /// What every store holds to.
    pub open spec fn wf(&self) -> bool {
        self@.wf()
    }

    /// A store without Items, its counters at zero.
    pub fn new() -> (r: Store)
        ensures
            r.wf(),
            r@ == (StoreView {
                items: Seq::empty(),
                aliases: Seq::empty(),
                dependencies: Seq::empty(),
                external_blockers: Seq::empty(),
                mutations: Seq::empty(),
                item_created_seq: Some(0),
                display_seq: Some(0),
                mutation_seq: Some(0),
                display_prefix: None,
                remote_kind: None,
                cursor: None,
                former_identities: Seq::empty(),
                plan: Seq::empty(),
            }),
    {
        Store {
            items: Vec::new(),
            aliases: Vec::new(),
            dependencies: Vec::new(),
            external_blockers: Vec::new(),
            mutations: Vec::new(),
            item_created_seq: Some(0),
            display_seq: Some(0),
            mutation_seq: Some(0),
            display_prefix: None,
            remote_kind: None,
            cursor: None,
            former_identities: Vec::new(),
            plan: Vec::new(),
        }
    }

    /// The number of Items.
    pub fn item_count(&self) -> (r: usize)
        ensures
            r == self@.items.len(),
    {
        self.items.len()
    }

    /// One of the Items.
    pub fn item(&self, i: usize) -> (r: &Item)
        requires
            i < self@.items.len(),
        ensures
            r@ == self@.items[i as int],
    {
        &self.items[i]
    }

    /// The number of Aliases.
    pub fn alias_count(&self) -> (r: usize)
        ensures
            r == self@.aliases.len(),
    {
        self.aliases.len()
    }

    /// One of the Aliases.
    pub fn alias(&self, i: usize) -> (r: &Alias)
        requires
            i < self@.aliases.len(),
        ensures
            r@ == self@.aliases[i as int],
    {
        &self.aliases[i]
    }

    /// The number of Dependencies.
    pub fn dependency_count(&self) -> (r: usize)
        ensures
            r == self@.dependencies.len(),
    {
        self.dependencies.len()
    }

    /// One of the Dependencies.
    pub fn dependency(&self, i: usize) -> (r: &Dependency)
        requires
            i < self@.dependencies.len(),
        ensures
            r@ == self@.dependencies[i as int],
    {
        &self.dependencies[i]
    }

    /// The number of External Blockers.
    pub fn external_blocker_count(&self) -> (r: usize)
        ensures
            r == self@.external_blockers.len(),
    {
        self.external_blockers.len()
    }

    /// One of the External Blockers.
    pub fn external_blocker(&self, i: usize) -> (r: &ExternalBlocker)
        requires
            i < self@.external_blockers.len(),
        ensures
            r@ == self@.external_blockers[i as int],
    {
        &self.external_blockers[i]
    }

    /// The number of Mutations.
    pub fn mutation_count(&self) -> (r: usize)
        ensures
            r == self@.mutations.len(),
    {
        self.mutations.len()
    }

    /// One of the Mutations.
    pub fn mutation(&self, i: usize) -> (r: &Mutation)
        requires
            i < self@.mutations.len(),
        ensures
            r@ == self@.mutations[i as int],
    {
        &self.mutations[i]
    }

    /// The number of former Backend identities.
    pub fn former_identity_count(&self) -> (r: usize)
        ensures
            r == self@.former_identities.len(),
    {
        self.former_identities.len()
    }

    /// One of the former Backend identities.
    pub fn former_identity(&self, i: usize) -> (r: &FormerIdentity)
        requires
            i < self@.former_identities.len(),
        ensures
            r@ == self@.former_identities[i as int],
    {
        &self.former_identities[i]
    }

    /// The number of the Plan's members.
    pub fn plan_count(&self) -> (r: usize)
        ensures
            r == self@.plan.len(),
    {
        self.plan.len()
    }

    /// The internal ID of one of the Plan's members.
    pub fn plan_member(&self, i: usize) -> (r: &String)
        requires
            i < self@.plan.len(),
        ensures
            r@ == self@.plan[i as int],
    {
        &self.plan[i]
    }

    /// The value of a counter, if it is there.
    pub fn counter(&self, counter: Counter) -> (r: Option<i64>)
        ensures
            opt_int(r) == self@.counter(counter),
    {
        match counter {
            Counter::ItemCreated => self.item_created_seq,
            Counter::Display => self.display_seq,
            Counter::Mutation => self.mutation_seq,
        }
    }

    /// The Display ID prefix, if the store has one.
    pub fn display_prefix(&self) -> (r: Option<&String>)
        ensures
            match r {
                Some(prefix) => self@.display_prefix == Some(prefix@),
                None => self@.display_prefix is None,
            },
    {
        match &self.display_prefix {
            Some(prefix) => Some(prefix),
            None => None,
        }
    }

    /// The Backend of the primary Remote, if one is configured.
    pub fn remote_kind(&self) -> (r: Option<BackendKind>)
        ensures
            r == self@.remote_kind,
    {
        self.remote_kind
    }

    /// The Sync Cursor of the primary Remote, if there is one.
    pub fn cursor(&self) -> (r: Option<&SyncCursor>)
        ensures
            match r {
                Some(cursor) => self@.cursor == Some(cursor@),
                None => self@.cursor is None,
            },
    {
        match &self.cursor {
            Some(cursor) => Some(cursor),
            None => None,
        }
    }

    /// Where the Item with the internal ID stands, if there is one.
    pub fn find(&self, id: &str) -> (r: Option<usize>)
        requires
            self.wf(),
        ensures
            match r {
                Some(i) => self@.has(id@) && i == self@.at(id@) && i < self@.items.len()
                    && self@.items[i as int].id == id@,
                None => !self@.has(id@),
            },
    {
        let mut i: usize = 0;
        while i < self.items.len()
            invariant
                self.wf(),
                0 <= i <= self.items@.len(),
                forall|k: int| 0 <= k < i ==> (#[trigger] self@.items[k]).id != id@,
            decreases self.items@.len() - i,
        {
            if same_text(self.items[i].id.as_str(), id) {
                proof {
                    lemma_at(self@, i as int);
                }
                return Some(i);
            }
            proof {
                assert(self@.items[i as int] == self.items@[i as int]@);
            }
            i = i + 1;
        }
        proof {
            assert(self@.items.len() == self.items@.len());
            if self@.has(id@) {
                let k = choose|k: int| 0 <= k < ids(self@.items).len() && ids(self@.items)[k] == id@;
                assert(self@.items[k].id == id@);
            }
        }
        None
    }

    /// A copy of the store, to try a change on.
    pub fn copy(&self) -> (r: Store)
        ensures
            r@ == self@,
    {
        let mut items: Vec<Item> = Vec::new();
        let mut i: usize = 0;
        while i < self.items.len()
            invariant
                0 <= i <= self.items@.len(),
                items@.map_values(|r: Item| r@) == self.items@.take(i as int).map_values(|r: Item| r@),
            decreases self.items@.len() - i,
        {
            let ghost before = items@;
            items.push(self.items[i].copy());
            i = i + 1;
            proof {
                assert(items@.map_values(|r: Item| r@) =~= before.map_values(|r: Item| r@).push(
                    self.items@[i - 1]@,
                ));
                assert(self.items@.take(i as int).map_values(|r: Item| r@) =~= self.items@.take(
                    i - 1,
                ).map_values(|r: Item| r@).push(self.items@[i - 1]@));
            }
        }
        proof {
            assert(self.items@.take(i as int) =~= self.items@);
        }
        let mut aliases: Vec<Alias> = Vec::new();
        let mut i: usize = 0;
        while i < self.aliases.len()
            invariant
                0 <= i <= self.aliases@.len(),
                aliases@.map_values(|r: Alias| r@) == self.aliases@.take(i as int).map_values(|r: Alias| r@),
            decreases self.aliases@.len() - i,
        {
            let ghost before = aliases@;
            aliases.push(self.aliases[i].copy());
            i = i + 1;
            proof {
                assert(aliases@.map_values(|r: Alias| r@) =~= before.map_values(|r: Alias| r@).push(
                    self.aliases@[i - 1]@,
                ));
                assert(self.aliases@.take(i as int).map_values(|r: Alias| r@) =~= self.aliases@.take(
                    i - 1,
                ).map_values(|r: Alias| r@).push(self.aliases@[i - 1]@));
            }
        }
        proof {
            assert(self.aliases@.take(i as int) =~= self.aliases@);
        }
        let mut dependencies: Vec<Dependency> = Vec::new();
        let mut i: usize = 0;
        while i < self.dependencies.len()
            invariant
                0 <= i <= self.dependencies@.len(),
                dependencies@.map_values(|r: Dependency| r@) == self.dependencies@.take(i as int).map_values(|r: Dependency| r@),
            decreases self.dependencies@.len() - i,
        {
            let ghost before = dependencies@;
            dependencies.push(self.dependencies[i].copy());
            i = i + 1;
            proof {
                assert(dependencies@.map_values(|r: Dependency| r@) =~= before.map_values(|r: Dependency| r@).push(
                    self.dependencies@[i - 1]@,
                ));
                assert(self.dependencies@.take(i as int).map_values(|r: Dependency| r@) =~= self.dependencies@.take(
                    i - 1,
                ).map_values(|r: Dependency| r@).push(self.dependencies@[i - 1]@));
            }
        }
        proof {
            assert(self.dependencies@.take(i as int) =~= self.dependencies@);
        }
        let mut external_blockers: Vec<ExternalBlocker> = Vec::new();
        let mut i: usize = 0;
        while i < self.external_blockers.len()
            invariant
                0 <= i <= self.external_blockers@.len(),
                external_blockers@.map_values(|r: ExternalBlocker| r@) == self.external_blockers@.take(i as int).map_values(|r: ExternalBlocker| r@),
            decreases self.external_blockers@.len() - i,
        {
            let ghost before = external_blockers@;
            external_blockers.push(self.external_blockers[i].copy());
            i = i + 1;
            proof {
                assert(external_blockers@.map_values(|r: ExternalBlocker| r@) =~= before.map_values(|r: ExternalBlocker| r@).push(
                    self.external_blockers@[i - 1]@,
                ));
                assert(self.external_blockers@.take(i as int).map_values(|r: ExternalBlocker| r@) =~= self.external_blockers@.take(
                    i - 1,
                ).map_values(|r: ExternalBlocker| r@).push(self.external_blockers@[i - 1]@));
            }
        }
        proof {
            assert(self.external_blockers@.take(i as int) =~= self.external_blockers@);
        }
        let mut mutations: Vec<Mutation> = Vec::new();
        let mut i: usize = 0;
        while i < self.mutations.len()
            invariant
                0 <= i <= self.mutations@.len(),
                mutations@.map_values(|r: Mutation| r@) == self.mutations@.take(i as int).map_values(|r: Mutation| r@),
            decreases self.mutations@.len() - i,
        {
            let ghost before = mutations@;
            mutations.push(self.mutations[i].copy());
            i = i + 1;
            proof {
                assert(mutations@.map_values(|r: Mutation| r@) =~= before.map_values(|r: Mutation| r@).push(
                    self.mutations@[i - 1]@,
                ));
                assert(self.mutations@.take(i as int).map_values(|r: Mutation| r@) =~= self.mutations@.take(
                    i - 1,
                ).map_values(|r: Mutation| r@).push(self.mutations@[i - 1]@));
            }
        }
        proof {
            assert(self.mutations@.take(i as int) =~= self.mutations@);
        }
        let mut former_identities: Vec<FormerIdentity> = Vec::new();
        let mut i: usize = 0;
        while i < self.former_identities.len()
            invariant
                0 <= i <= self.former_identities@.len(),
                former_identities@.map_values(|r: FormerIdentity| r@) == self.former_identities@.take(i as int).map_values(|r: FormerIdentity| r@),
            decreases self.former_identities@.len() - i,
        {
            let ghost before = former_identities@;
            former_identities.push(self.former_identities[i].copy());
            i = i + 1;
            proof {
                assert(former_identities@.map_values(|r: FormerIdentity| r@) =~= before.map_values(|r: FormerIdentity| r@).push(
                    self.former_identities@[i - 1]@,
                ));
                assert(self.former_identities@.take(i as int).map_values(|r: FormerIdentity| r@) =~= self.former_identities@.take(
                    i - 1,
                ).map_values(|r: FormerIdentity| r@).push(self.former_identities@[i - 1]@));
            }
        }
        proof {
            assert(self.former_identities@.take(i as int) =~= self.former_identities@);
        }
        let mut plan: Vec<String> = Vec::new();
        let mut i: usize = 0;
        while i < self.plan.len()
            invariant
                0 <= i <= self.plan@.len(),
                texts(plan@) == texts(self.plan@).take(i as int),
            decreases self.plan@.len() - i,
        {
            let ghost before = plan@;
            plan.push(self.plan[i].clone());
            i = i + 1;
            proof {
                assert(texts(plan@) =~= texts(before).push(self.plan@[i - 1]@));
                assert(texts(plan@) =~= texts(self.plan@).take(i as int));
            }
        }
        proof {
            assert(texts(self.plan@).take(i as int) =~= texts(self.plan@));
        }
        let cursor = match &self.cursor {
            Some(cursor) => Some(cursor.copy()),
            None => None,
        };
        Store {
            items,
            aliases,
            dependencies,
            external_blockers,
            mutations,
            item_created_seq: self.item_created_seq,
            display_seq: self.display_seq,
            mutation_seq: self.mutation_seq,
            display_prefix: copy_text(&self.display_prefix),
            remote_kind: self.remote_kind,
            cursor,
            former_identities,
            plan,
        }
    }

    pub(crate) fn put_item(&mut self, i: usize, item: Item)
        requires
            i < old(self)@.items.len(),
        ensures
            final(self)@ == (StoreView {
                items: old(self)@.items.update(i as int, item@),
                ..old(self)@
            }),
    {
        self.items.set(i, item);
        proof {
            assert(self@.items =~= old(self)@.items.update(i as int, item@));
        }
    }

    pub(crate) fn insert_item_row(&mut self, i: usize, item: Item)
        requires
            i <= old(self)@.items.len(),
        ensures
            final(self)@ == (StoreView {
                items: old(self)@.items.insert(i as int, item@),
                ..old(self)@
            }),
    {
        self.items.insert(i, item);
        proof {
            assert(self@.items =~= old(self)@.items.insert(i as int, item@));
        }
    }

    pub(crate) fn push_alias(&mut self, alias: Alias)
        ensures
            final(self)@ == (StoreView {
                aliases: old(self)@.aliases.push(alias@),
                ..old(self)@
            }),
    {
        self.aliases.push(alias);
        proof {
            assert(self@.aliases =~= old(self)@.aliases.push(alias@));
        }
    }

    pub(crate) fn remove_alias_row(&mut self, i: usize)
        requires
            i < old(self)@.aliases.len(),
        ensures
            final(self)@ == (StoreView {
                aliases: old(self)@.aliases.remove(i as int),
                ..old(self)@
            }),
    {
        self.aliases.remove(i);
        proof {
            assert(self@.aliases =~= old(self)@.aliases.remove(i as int));
        }
    }

    pub(crate) fn push_dependency(&mut self, dependency: Dependency)
        ensures
            final(self)@ == (StoreView {
                dependencies: old(self)@.dependencies.push(dependency@),
                ..old(self)@
            }),
    {
        self.dependencies.push(dependency);
        proof {
            assert(self@.dependencies =~= old(self)@.dependencies.push(dependency@));
        }
    }

    pub(crate) fn remove_dependency_row(&mut self, i: usize)
        requires
            i < old(self)@.dependencies.len(),
        ensures
            final(self)@ == (StoreView {
                dependencies: old(self)@.dependencies.remove(i as int),
                ..old(self)@
            }),
    {
        self.dependencies.remove(i);
        proof {
            assert(self@.dependencies =~= old(self)@.dependencies.remove(i as int));
        }
    }

    pub(crate) fn insert_blocker_row(&mut self, i: usize, blocker: ExternalBlocker)
        requires
            i <= old(self)@.external_blockers.len(),
        ensures
            final(self)@ == (StoreView {
                external_blockers: old(self)@.external_blockers.insert(i as int, blocker@),
                ..old(self)@
            }),
    {
        self.external_blockers.insert(i, blocker);
        proof {
            assert(self@.external_blockers =~= old(self)@.external_blockers.insert(
                i as int,
                blocker@,
            ));
        }
    }

    pub(crate) fn put_mutation(&mut self, i: usize, mutation: Mutation)
        requires
            i < old(self)@.mutations.len(),
        ensures
            final(self)@ == (StoreView {
                mutations: old(self)@.mutations.update(i as int, mutation@),
                ..old(self)@
            }),
    {
        self.mutations.set(i, mutation);
        proof {
            assert(self@.mutations =~= old(self)@.mutations.update(i as int, mutation@));
        }
    }

    pub(crate) fn insert_mutation_row(&mut self, i: usize, mutation: Mutation)
        requires
            i <= old(self)@.mutations.len(),
        ensures
            final(self)@ == (StoreView {
                mutations: old(self)@.mutations.insert(i as int, mutation@),
                ..old(self)@
            }),
    {
        self.mutations.insert(i, mutation);
        proof {
            assert(self@.mutations =~= old(self)@.mutations.insert(i as int, mutation@));
        }
    }

    pub(crate) fn push_former(&mut self, former: FormerIdentity)
        ensures
            final(self)@ == (StoreView {
                former_identities: old(self)@.former_identities.push(former@),
                ..old(self)@
            }),
    {
        self.former_identities.push(former);
        proof {
            assert(self@.former_identities =~= old(self)@.former_identities.push(former@));
        }
    }

    pub(crate) fn push_plan(&mut self, id: String)
        ensures
            final(self)@ == (StoreView { plan: old(self)@.plan.push(id@), ..old(self)@ }),
    {
        self.plan.push(id);
        proof {
            assert(self@.plan =~= old(self)@.plan.push(id@));
        }
    }

    pub(crate) fn remove_plan_row(&mut self, i: usize)
        requires
            i < old(self)@.plan.len(),
        ensures
            final(self)@ == (StoreView { plan: old(self)@.plan.remove(i as int), ..old(self)@ }),
    {
        self.plan.remove(i);
        proof {
            assert(self@.plan =~= old(self)@.plan.remove(i as int));
        }
    }

    pub(crate) fn clear_plan(&mut self)
        ensures
            final(self)@ == (StoreView { plan: Seq::empty(), ..old(self)@ }),
    {
        self.plan.clear();
        proof {
            assert(self@.plan =~= Seq::empty());
        }
    }

    /// Sets a counter to a value, or takes its row away.
    pub fn set_counter(&mut self, counter: Counter, value: Option<i64>)
        ensures
            final(self)@ == old(self)@.with_counter(counter, opt_int(value)),
            old(self).wf() ==> final(self).wf(),
    {
        match counter {
            Counter::ItemCreated => self.item_created_seq = value,
            Counter::Display => self.display_seq = value,
            Counter::Mutation => self.mutation_seq = value,
        }
    }

    /// Sets the Display ID prefix.
    pub fn set_display_prefix(&mut self, prefix: Option<String>)
        ensures
            final(self)@ == (StoreView { display_prefix: opt_text(prefix), ..old(self)@ }),
            old(self).wf() ==> final(self).wf(),
    {
        self.display_prefix = prefix;
    }

    /// Sets the Backend of the primary Remote.
    pub fn set_remote_kind(&mut self, kind: Option<BackendKind>)
        ensures
            final(self)@ == (StoreView { remote_kind: kind, ..old(self)@ }),
            old(self).wf() ==> final(self).wf(),
    {
        self.remote_kind = kind;
    }

    /// Sets the Sync Cursor of the primary Remote.
    pub fn set_cursor(&mut self, cursor: Option<SyncCursor>)
        ensures
            final(self)@ == (StoreView {
                cursor: match cursor {
                    Some(cursor) => Some(cursor@),
                    None => None,
                },
                ..old(self)@
            }),
            old(self).wf() ==> final(self).wf(),
    {
        self.cursor = cursor;
    }
}

/// Each Item stands where its internal ID is looked up.
pub proof fn lemma_at(v: StoreView, i: int)
    requires
        ids_distinct(v.items),
        0 <= i < v.items.len(),
    ensures
        v.has(v.items[i].id),
        v.at(v.items[i].id) == i,
{
    let all = ids(v.items);
    assert(all[i] == v.items[i].id);
    let k = all.index_of(v.items[i].id);
    assert(0 <= k < all.len() && all[k] == all[i]);
}

/// An internal ID that is there is that of the Item it is looked up at.
pub proof fn lemma_has(v: StoreView, id: Seq<char>)
    requires
        v.has(id),
    ensures
        0 <= v.at(id) < v.items.len(),
        v.item(id).id == id,
{
    let all = ids(v.items);
    let k = all.index_of(id);
    assert(0 <= k < all.len() && all[k] == id);
}

} // verus!
