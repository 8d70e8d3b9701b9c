//! Selection of the next ready Ticket by Effective Priority.
//!
//! A ready Ticket is open and waits on nothing. Its Effective Priority is the
//! most urgent Priority among the Tickets that transitively wait on it, or
//! stand in an Epic that does, and its own. Selection goes by Effective
//! Priority, own Priority and creation order.

use vstd::prelude::*;

use crate::domain::{ItemClass, ItemStatus, Lifecycle, Priority};
use crate::graph::{
    contains_text, lists_within, pairs_of, reach_within, texts, within, Edge,
};
use crate::rows::{text_is, DependencyView, Item, ItemView};
use crate::select::{lemma_filter_all, lemma_filter_none, lemma_filter_step, lemma_first};
use crate::tables::{lemma_at, Fault, Store, StoreView};
use crate::text::same_text;

use super::pick::{is_blocked, waits_externally, waits_on_open};

verus! {

/// The selected Ticket.
#[derive(Clone, Debug, PartialEq, Eq)]
pub struct NextTicket {
    pub display_id: String,
    /// Why it was selected, where its urgency comes from another Ticket.
    pub rationale: Option<Rationale>,
}

/// Where a selected Ticket's urgency comes from.
#[derive(Clone, Debug, PartialEq, Eq)]
pub struct Rationale {
    pub effective_priority: String,
    pub blocked_display_id: String,
}

/// What a selection is confined to.
#[derive(Clone, Copy, Debug)]
pub enum NextScope<'a> {
    /// Every Ticket of the store.
    All,
    /// The children of the Epic with the internal ID.
    Epic(&'a str),
    /// The Tickets of the Plan and, of these, only the children of the Epic with
    /// the internal ID, where there is one.
    Plan(Option<&'a str>),
}

/// What a selection asks for.
#[derive(Clone, Copy, Debug)]
pub struct NextOptions<'a> {
    pub scope: NextScope<'a>,
}

impl<'a> Default for NextOptions<'a> {
    fn default() -> (r: Self)
        ensures
            r.scope == NextScope::<'a>::All,
    {
        NextOptions { scope: NextScope::All }
    }
}

/// Why no selection could be made. That nothing is ready is no error.
#[derive(Clone, Copy, Debug, PartialEq, Eq, Structural)]
pub enum NextError {
    /// The selected Ticket has no Priority.
    Storage(Fault),
}

/// The number of steps that urgency is followed over.
pub const MAX_DEPTH: usize = 1024;

/// Whether urgency passes on to the Item within the scope. Within the Plan it
/// passes through any Epic, but to Tickets of the Plan alone.
pub open spec fn scope_admits(v: StoreView, scope: NextScope<'_>, item: ItemView) -> bool {
    match scope {
        NextScope::All => true,
        NextScope::Epic(epic) => item.id == epic@ || item.container_id == Some(epic@),
        NextScope::Plan(epic) => {
            &&& item.item_class == ItemClass::Epic || v.plan.contains(item.id)
            &&& epic is Some ==> item.id == epic->0@ || item.container_id == Some(epic->0@)
        },
    }
}

/// Whether the scope's selection may fall on the Ticket.
pub open spec fn scope_selects(v: StoreView, scope: NextScope<'_>, item: ItemView) -> bool {
    match scope {
        NextScope::All => true,
        NextScope::Epic(epic) => item.container_id == Some(epic@),
        NextScope::Plan(epic) => v.plan.contains(item.id) && (epic is Some ==> item.container_id
            == Some(epic->0@)),
    }
}

/// Whether urgency passes along the Dependency.
pub open spec fn passes_urgency(v: StoreView, scope: NextScope<'_>) -> spec_fn(DependencyView) -> bool {
    |d: DependencyView|
        v.item(d.blocked_id).lifecycle != Lifecycle::Done && scope_admits(
            v,
            scope,
            v.item(d.blocked_id),
        )
}

/// Whether urgency passes from the containing Epic to the Item.
pub open spec fn inherits_urgency(v: StoreView, scope: NextScope<'_>) -> spec_fn(ItemView) -> bool {
    |item: ItemView|
        item.container_id is Some && item.item_class == ItemClass::Ticket && item.lifecycle
            != Lifecycle::Done && scope_admits(v, scope, item)
}

/// The steps that urgency is followed over: from a blocking Item to the one
/// that waits on it, and from an Epic to its Tickets.
pub open spec fn urgency_edges(v: StoreView, scope: NextScope<'_>) -> Seq<(Seq<char>, Seq<char>)> {
    let dependencies = v.dependencies.filter(passes_urgency(v, scope));
    let members = v.items.filter(inherits_urgency(v, scope));
    Seq::new(
        dependencies.len(),
        |i: int| (dependencies[i].blocking_id, dependencies[i].blocked_id),
    ) + Seq::new(members.len(), |i: int| (members[i].container_id->0, members[i].id))
}

/// Whether the urgency of one Item is felt at another.
pub open spec fn feels(v: StoreView, scope: NextScope<'_>, at: Seq<char>, of: Seq<char>) -> bool {
    within(urgency_edges(v, scope), MAX_DEPTH as nat, at, of)
}

/// Whether the Item is a Ticket with a Priority that is not done.
pub open spec fn urges(item: ItemView) -> bool {
    item.item_class == ItemClass::Ticket && item.lifecycle != Lifecycle::Done && item.priority
        is Some
}

/// Whether the Priority is the most urgent one that is felt at the Item.
pub open spec fn is_effective(
    v: StoreView,
    scope: NextScope<'_>,
    id: Seq<char>,
    priority: Priority,
) -> bool {
    &&& exists|i: int|
        0 <= i < v.items.len() && urges(#[trigger] v.items[i]) && v.items[i].priority == Some(
            priority,
        ) && feels(v, scope, id, v.items[i].id)
    &&& forall|i: int|
        0 <= i < v.items.len() && urges(#[trigger] v.items[i]) && feels(v, scope, id, v.items[i].id)
            ==> priority.rank() <= v.items[i].priority->0.rank()
}

/// The Effective Priority of an Item, if any Priority is felt at it.
pub open spec fn effective(v: StoreView, scope: NextScope<'_>, id: Seq<char>) -> Option<Priority> {
    if exists|p: Priority| is_effective(v, scope, id, p) {
        Some(choose|p: Priority| is_effective(v, scope, id, p))
    } else {
        None
    }
}

/// Whether the selection may fall on the Item.
pub open spec fn is_candidate(v: StoreView, scope: NextScope<'_>, item: ItemView) -> bool {
    &&& item.item_class == ItemClass::Ticket
    &&& item.status() == ItemStatus::Open
    &&& !is_blocked(v, item.id)
    &&& scope_selects(v, scope, item)
    &&& effective(v, scope, item.id) is Some
}

/// The place of a Ticket's own Priority: none comes first.
pub open spec fn own_rank(priority: Option<Priority>) -> int {
    match priority {
        None => -1,
        Some(p) => p.rank(),
    }
}

/// Whether one candidate is selected before another.
pub open spec fn goes_first(v: StoreView, scope: NextScope<'_>, a: ItemView, b: ItemView) -> bool {
    let ea = effective(v, scope, a.id)->0.rank();
    let eb = effective(v, scope, b.id)->0.rank();
    if ea != eb {
        ea < eb
    } else if own_rank(a.priority) != own_rank(b.priority) {
        own_rank(a.priority) < own_rank(b.priority)
    } else {
        a.created_seq < b.created_seq
    }
}

/// Whether the selection falls on the Item at the place: no candidate goes
/// before it, and among equals it stands first.
pub open spec fn is_selected(v: StoreView, scope: NextScope<'_>, i: int) -> bool {
    &&& 0 <= i < v.items.len()
    &&& is_candidate(v, scope, v.items[i])
    &&& forall|j: int|
        0 <= j < v.items.len() && is_candidate(v, scope, #[trigger] v.items[j]) ==> !goes_first(
            v,
            scope,
            v.items[j],
            v.items[i],
        )
    &&& forall|j: int|
        0 <= j < i && is_candidate(v, scope, #[trigger] v.items[j]) ==> goes_first(
            v,
            scope,
            v.items[i],
            v.items[j],
        )
}

/// Whether another Ticket lends the selected one its Effective Priority.
pub open spec fn lends(
    v: StoreView,
    scope: NextScope<'_>,
    id: Seq<char>,
    priority: Priority,
) -> spec_fn(ItemView) -> bool {
    |item: ItemView|
        urges(item) && item.priority == Some(priority) && item.id != id && feels(
            v,
            scope,
            id,
            item.id,
        )
}

fn admits(store: &Store, scope: NextScope<'_>, item: &Item) -> (r: bool)
    ensures
        r == scope_admits(store@, scope, item@),
{
    match scope {
        NextScope::All => true,
        NextScope::Epic(epic) => same_text(item.id.as_str(), epic) || text_is(
            &item.container_id,
            epic,
        ),
        NextScope::Plan(epic) => {
            let near = match epic {
                None => true,
                Some(epic) => same_text(item.id.as_str(), epic) || text_is(
                    &item.container_id,
                    epic,
                ),
            };
            near && (item.item_class == ItemClass::Epic || store.in_plan(item.id.as_str()))
        },
    }
}

/// The steps that urgency is followed over.
fn edges_of(store: &Store, scope: NextScope<'_>) -> (r: Vec<Edge>)
    requires
        store.wf(),
    ensures
        pairs_of(r@) == urgency_edges(store@, scope),
{
    let ghost v = store@;
    let ghost dcond = passes_urgency(v, scope);
    let ghost icond = inherits_urgency(v, scope);
    let mut out: Vec<Edge> = Vec::new();
    let mut i: usize = 0;
    proof {
        lemma_filter_none(v.dependencies, dcond);
        assert(pairs_of(out@) =~= Seq::empty());
    }
    while i < store.dependency_count()
        invariant
            0 <= i <= v.dependencies.len(),
            v == store@,
            store.wf(),
            dcond == passes_urgency(v, scope),
            out@.len() == v.dependencies.take(i as int).filter(dcond).len(),
            forall|k: int|
                0 <= k < out@.len() ==> (#[trigger] pairs_of(out@)[k]) == (
                    v.dependencies.take(i as int).filter(dcond)[k].blocking_id,
                    v.dependencies.take(i as int).filter(dcond)[k].blocked_id,
                ),
        decreases v.dependencies.len() - i,
    {
        let d = store.dependency(i);
        let ghost before = out@;
        proof {
            lemma_filter_step(v.dependencies, dcond, i as int);
            assert(v.has(v.dependencies[i as int].blocked_id));
        }
        let keep = match store.find(d.blocked_id.as_str()) {
            Some(k) => store.item(k).lifecycle != Lifecycle::Done && admits(store, scope, store.item(k)),
            None => false,
        };
        if keep {
            out.push(Edge { src: d.blocking_id.clone(), dst: d.blocked_id.clone() });
            proof {
                assert(pairs_of(out@) =~= pairs_of(before).push((d.blocking_id@, d.blocked_id@)));
            }
        }
        i = i + 1;
    }
    let ghost deps = v.dependencies.filter(dcond);
    let ghost n = out@.len() as int;
    let ghost first = pairs_of(out@);
    proof {
        lemma_filter_all(v.dependencies, dcond);
        lemma_filter_none(v.items, icond);
        assert(first =~= Seq::new(deps.len(), |k: int| (deps[k].blocking_id, deps[k].blocked_id)));
    }
    let mut j: usize = 0;
    while j < store.item_count()
        invariant
            0 <= j <= v.items.len(),
            v == store@,
            store.wf(),
            icond == inherits_urgency(v, scope),
            n == first.len(),
            out@.len() == n + v.items.take(j as int).filter(icond).len(),
            forall|k: int| 0 <= k < n ==> (#[trigger] pairs_of(out@)[k]) == first[k],
            forall|k: int|
                n <= k < out@.len() ==> (#[trigger] pairs_of(out@)[k]) == (
                    v.items.take(j as int).filter(icond)[k - n].container_id->0,
                    v.items.take(j as int).filter(icond)[k - n].id,
                ),
        decreases v.items.len() - j,
    {
        let item = store.item(j);
        let ghost before = out@;
        proof {
            lemma_filter_step(v.items, icond, j as int);
        }
        if item.item_class == ItemClass::Ticket && item.lifecycle != Lifecycle::Done && admits(
            store,
            scope,
            item,
        ) {
            if let Some(container) = &item.container_id {
                out.push(Edge { src: container.clone(), dst: item.id.clone() });
                proof {
                    assert(pairs_of(out@) =~= pairs_of(before).push((container@, item.id@)));
                }
            }
        }
        j = j + 1;
    }
    proof {
        lemma_filter_all(v.items, icond);
        assert(pairs_of(out@) =~= urgency_edges(v, scope));
    }
    out
}

/// Two most urgent Priorities are the same.
proof fn lemma_effective_one(
    v: StoreView,
    scope: NextScope<'_>,
    id: Seq<char>,
    a: Priority,
    b: Priority,
)
    requires
        is_effective(v, scope, id, a),
        is_effective(v, scope, id, b),
    ensures
        a == b,
{
    let i = choose|i: int|
        0 <= i < v.items.len() && urges(#[trigger] v.items[i]) && v.items[i].priority == Some(a)
            && feels(v, scope, id, v.items[i].id);
    let j = choose|j: int|
        0 <= j < v.items.len() && urges(#[trigger] v.items[j]) && v.items[j].priority == Some(b)
            && feels(v, scope, id, v.items[j].id);
    assert(a.rank() <= b.rank());
    assert(b.rank() <= a.rank());
}

fn counts(item: &Item) -> (r: bool)
    ensures
        r == urges(item@),
{
    item.item_class == ItemClass::Ticket && item.lifecycle != Lifecycle::Done
        && item.priority.is_some()
}

/// The Effective Priority of an Item, given what is felt at it.
fn effective_priority(
    store: &Store,
    scope: NextScope<'_>,
    felt: &Vec<String>,
    Ghost(id): Ghost<Seq<char>>,
) -> (r: Option<Priority>)
    requires
        lists_within(texts(felt@), urgency_edges(store@, scope), id, MAX_DEPTH as nat),
    ensures
        r == effective(store@, scope, id),
{
    let ghost v = store@;
    let mut best: Option<Priority> = None;
    let mut i: usize = 0;
    while i < store.item_count()
        invariant
            0 <= i <= v.items.len(),
            v == store@,
            lists_within(texts(felt@), urgency_edges(v, scope), id, MAX_DEPTH as nat),
            match best {
                None => forall|k: int|
                    0 <= k < i && urges(#[trigger] v.items[k]) ==> !feels(
                        v,
                        scope,
                        id,
                        v.items[k].id,
                    ),
                Some(p) => {
                    &&& exists|k: int|
                        0 <= k < i && urges(#[trigger] v.items[k]) && v.items[k].priority == Some(
                            p,
                        ) && feels(v, scope, id, v.items[k].id)
                    &&& forall|k: int|
                        0 <= k < i && urges(#[trigger] v.items[k]) && feels(
                            v,
                            scope,
                            id,
                            v.items[k].id,
                        ) ==> p.rank() <= v.items[k].priority->0.rank()
                },
            },
        decreases v.items.len() - i,
    {
        let item = store.item(i);
        proof {
            assert(texts(felt@).contains(item.id@) == feels(v, scope, id, v.items[i as int].id));
        }
        if counts(item) && contains_text(felt, item.id.as_str()) {
            if let Some(p) = item.priority {
                let better = match best {
                    None => true,
                    Some(b) => p.place() < b.place(),
                };
                if better {
                    proof {
                        assert(urges(v.items[i as int]) && v.items[i as int].priority == Some(p));
                    }
                    best = Some(p);
                }
            }
        }
        i = i + 1;
    }
    proof {
        match best {
            Some(p) => {
                assert(is_effective(v, scope, id, p));
                let q = choose|q: Priority| is_effective(v, scope, id, q);
                lemma_effective_one(v, scope, id, p, q);
            },
            None => {
                assert forall|p: Priority| !is_effective(v, scope, id, p) by {}
            },
        }
    }
    best
}

/// Whether the Item may be selected, and its Effective Priority.
fn candidate(store: &Store, scope: NextScope<'_>, edges: &Vec<Edge>, i: usize) -> (r: Option<
    Priority,
>)
    requires
        store.wf(),
        i < store@.items.len(),
        pairs_of(edges@) == urgency_edges(store@, scope),
    ensures
        match r {
            Some(p) => is_candidate(store@, scope, store@.items[i as int]) && effective(
                store@,
                scope,
                store@.items[i as int].id,
            ) == Some(p),
            None => !is_candidate(store@, scope, store@.items[i as int]),
        },
{
    let item = store.item(i);
    let selectable = match scope {
        NextScope::All => true,
        NextScope::Epic(epic) => text_is(&item.container_id, epic),
        NextScope::Plan(epic) => {
            let near = match epic {
                None => true,
                Some(epic) => text_is(&item.container_id, epic),
            };
            near && store.in_plan(item.id.as_str())
        },
    };
    if item.item_class != ItemClass::Ticket || item.status() != ItemStatus::Open || !selectable {
        return None;
    }
    if waits_on_open(store, item.id.as_str()) || waits_externally(store, item.id.as_str()) {
        return None;
    }
    let felt = reach_within(edges, item.id.as_str(), MAX_DEPTH);
    effective_priority(store, scope, &felt, Ghost(item.id@))
}

fn place_of_own(priority: Option<Priority>) -> (r: i64)
    ensures
        r == own_rank(priority),
{
    match priority {
        None => -1,
        Some(p) => p.place() as i64,
    }
}

/// The order of selection is transitive.
proof fn lemma_goes_first_trans(
    v: StoreView,
    scope: NextScope<'_>,
    a: ItemView,
    b: ItemView,
    c: ItemView,
)
    ensures
        goes_first(v, scope, a, b) && !goes_first(v, scope, c, b) ==> goes_first(v, scope, a, c),
        goes_first(v, scope, a, b) && goes_first(v, scope, b, c) ==> goes_first(v, scope, a, c),
        goes_first(v, scope, a, b) ==> !goes_first(v, scope, b, a),
        !goes_first(v, scope, b, a) && !goes_first(v, scope, c, b) ==> !goes_first(
            v,
            scope,
            c,
            a,
        ),
        !goes_first(v, scope, b, a) && goes_first(v, scope, b, c) ==> goes_first(v, scope, a, c),
{
}

/// The place of the Ticket that the selection falls on, and its Effective
/// Priority.
fn select(store: &Store, scope: NextScope<'_>, edges: &Vec<Edge>) -> (r: Option<(usize, Priority)>)
    requires
        store.wf(),
        pairs_of(edges@) == urgency_edges(store@, scope),
    ensures
        match r {
            Some((i, p)) => {
                &&& is_selected(store@, scope, i as int)
                &&& effective(store@, scope, store@.items[i as int].id) == Some(p)
            },
            None => forall|j: int|
                0 <= j < store@.items.len() ==> !is_candidate(
                    store@,
                    scope,
                    #[trigger] store@.items[j],
                ),
        },
{
    let ghost v = store@;
    let mut best: Option<(usize, Priority)> = None;
    let mut i: usize = 0;
    while i < store.item_count()
        invariant
            0 <= i <= v.items.len(),
            v == store@,
            store.wf(),
            pairs_of(edges@) == urgency_edges(v, scope),
            match best {
                None => forall|j: int|
                    0 <= j < i ==> !is_candidate(v, scope, #[trigger] v.items[j]),
                Some((b, p)) => {
                    &&& b < i
                    &&& is_candidate(v, scope, v.items[b as int])
                    &&& effective(v, scope, v.items[b as int].id) == Some(p)
                    &&& forall|j: int|
                        0 <= j < i && is_candidate(v, scope, #[trigger] v.items[j])
                            ==> !goes_first(v, scope, v.items[j], v.items[b as int])
                    &&& forall|j: int|
                        0 <= j < b && is_candidate(v, scope, #[trigger] v.items[j]) ==> goes_first(
                            v,
                            scope,
                            v.items[b as int],
                            v.items[j],
                        )
                },
            },
        decreases v.items.len() - i,
    {
        match candidate(store, scope, edges, i) {
            None => {},
            Some(p) => {
                let better = match best {
                    None => true,
                    Some((b, q)) => {
                        let mine = place_of_own(store.item(i).priority);
                        let theirs = place_of_own(store.item(b).priority);
                        if p.place() != q.place() {
                            p.place() < q.place()
                        } else if mine != theirs {
                            mine < theirs
                        } else {
                            store.item(i).created_seq < store.item(b).created_seq
                        }
                    },
                };
                if better {
                    proof {
                        if let Some((b, q)) = best {
                            let x = v.items[i as int];
                            let y = v.items[b as int];
                            assert(goes_first(v, scope, x, y));
                            assert forall|j: int|
                                0 <= j < i && is_candidate(
                                    v,
                                    scope,
                                    #[trigger] v.items[j],
                                ) implies goes_first(v, scope, x, v.items[j]) by {
                                lemma_goes_first_trans(v, scope, x, y, v.items[j]);
                            }
                            assert forall|j: int|
                                0 <= j < i + 1 && is_candidate(
                                    v,
                                    scope,
                                    #[trigger] v.items[j],
                                ) implies !goes_first(v, scope, v.items[j], x) by {
                                if j < i {
                                    lemma_goes_first_trans(v, scope, x, v.items[j], x);
                                }
                            }
                        }
                    }
                    best = Some((i, p));
                }
            },
        }
        i = i + 1;
    }
    best
}

/// The Display ID of the first Ticket that lends the selected one its
/// Effective Priority.
fn contributor(
    store: &Store,
    scope: NextScope<'_>,
    edges: &Vec<Edge>,
    id: &str,
    priority: Priority,
) -> (r: Option<String>)
    requires
        pairs_of(edges@) == urgency_edges(store@, scope),
    ensures
        ({
            let lenders = store@.items.filter(lends(store@, scope, id@, priority));
            match r {
                Some(display_id) => lenders.len() > 0 && display_id@ == lenders[0].display_id,
                None => lenders.len() == 0,
            }
        }),
{
    let felt = reach_within(edges, id, MAX_DEPTH);
    let ghost cond = lends(store@, scope, id@, priority);
    let mut i: usize = 0;
    proof {
        lemma_filter_none(store@.items, cond);
    }
    while i < store.item_count()
        invariant
            0 <= i <= store@.items.len(),
            cond == lends(store@, scope, id@, priority),
            lists_within(
                texts(felt@),
                urgency_edges(store@, scope),
                id@,
                MAX_DEPTH as nat,
            ),
            store@.items.take(i as int).filter(cond).len() == 0,
        decreases store@.items.len() - i,
    {
        let item = store.item(i);
        proof {
            lemma_filter_step(store@.items, cond, i as int);
            assert(texts(felt@).contains(item.id@) == feels(
                store@,
                scope,
                id@,
                store@.items[i as int].id,
            ));
        }
        let same = match item.priority {
            Some(p) => p == priority,
            None => false,
        };
        if counts(item) && same && !same_text(item.id.as_str(), id) && contains_text(
            &felt,
            item.id.as_str(),
        ) {
            proof {
                lemma_first(store@.items, cond, i as int);
            }
            return Some(item.display_id.clone());
        }
        i = i + 1;
    }
    proof {
        lemma_filter_all(store@.items, cond);
    }
    None
}

/// Where the urgency comes from, if it is not the Ticket's own.
pub fn build_rationale(
    own_priority: &str,
    effective_priority: String,
    contributor: Option<String>,
) -> (r: Option<Rationale>)
    ensures
        match r {
            Some(rationale) => {
                &&& own_priority@ != effective_priority@
                &&& contributor is Some
                &&& rationale.effective_priority@ == effective_priority@
                &&& rationale.blocked_display_id@ == contributor->0@
            },
            None => own_priority@ == effective_priority@ || contributor is None,
        },
{
    if same_text(own_priority, effective_priority.as_str()) {
        return None;
    }
    match contributor {
        Some(blocked_display_id) => Some(Rationale { effective_priority, blocked_display_id }),
        None => None,
    }
}

/// Select the next ready Ticket.
pub fn next_ready_ticket(store: &Store, options: NextOptions<'_>) -> (r: Result<
    Option<NextTicket>,
    NextError,
>)
    requires
        store.wf(),
    ensures
        match r {
            Ok(None) => forall|j: int|
                0 <= j < store@.items.len() ==> !is_candidate(
                    store@,
                    options.scope,
                    #[trigger] store@.items[j],
                ),
            Ok(Some(ticket)) => exists|i: int| #[trigger]
                is_selected(store@, options.scope, i) && selection_shown(
                    store@,
                    options.scope,
                    store@.items[i],
                    ticket,
                ),
            Err(error) => {
                &&& error == NextError::Storage(Fault::Check)
                &&& exists|i: int| #[trigger]
                    is_selected(store@, options.scope, i) && store@.items[i].priority is None
            },
        },
{
    let scope = options.scope;
    let edges = edges_of(store, scope);
    let (i, priority) = match select(store, scope, &edges) {
        None => {
            return Ok(None);
        },
        Some(found) => found,
    };
    let item = store.item(i);
    let own = match item.priority {
        Some(own) => own,
        None => {
            proof {
                assert(is_selected(store@, options.scope, i as int));
            }
            return Err(NextError::Storage(Fault::Check));
        },
    };
    let lender = contributor(store, scope, &edges, item.id.as_str(), priority);
    let rationale = build_rationale(own.text(), priority.text().to_owned(), lender);
    let ticket = NextTicket { display_id: item.display_id.clone(), rationale };
    proof {
        if own.name() == priority.name() {
            crate::domain::law_priority_text_is_unique(own, priority);
        } else {
            law_borrowed_urgency_has_a_lender(store@, options.scope, i as int);
        }
        assert(is_selected(store@, options.scope, i as int));
        assert(selection_shown(store@, options.scope, store@.items[i as int], ticket));
    }
    Ok(Some(ticket))
}

/// Whether the Ticket is shown as the selected one: with the Priority and the
/// Display ID of the first Ticket that lends it its urgency, where that is not
/// its own.
pub open spec fn selection_shown(
    v: StoreView,
    scope: NextScope<'_>,
    item: ItemView,
    ticket: NextTicket,
) -> bool {
    let priority = effective(v, scope, item.id)->0;
    let lenders = v.items.filter(lends(v, scope, item.id, priority));
    &&& item.priority is Some
    &&& ticket.display_id@ == item.display_id
    &&& match ticket.rationale {
        None => item.priority == Some(priority),
        Some(rationale) => {
            &&& item.priority != Some(priority)
            &&& rationale.effective_priority@ == priority.name()
            &&& lenders.len() > 0
            &&& rationale.blocked_display_id@ == lenders[0].display_id
        },
    }
}

// ---- Laws ---------------------------------------------------------------

/// The Effective Priority of a Ticket is never less urgent than its own.
pub proof fn law_effective_priority_is_at_least_as_urgent(
    v: StoreView,
    scope: NextScope<'_>,
    i: int,
)
    requires
        0 <= i < v.items.len(),
        urges(v.items[i]),
        effective(v, scope, v.items[i].id) is Some,
    ensures
        effective(v, scope, v.items[i].id)->0.rank() <= v.items[i].priority->0.rank(),
{
    let id = v.items[i].id;
    let p = choose|p: Priority| is_effective(v, scope, id, p);
    assert(within(urgency_edges(v, scope), MAX_DEPTH as nat, id, id));
    assert(feels(v, scope, id, v.items[i].id));
}

/// Where a selected Ticket's urgency is not its own, another Ticket lends it,
/// so that a reason is always shown.
pub proof fn law_borrowed_urgency_has_a_lender(v: StoreView, scope: NextScope<'_>, i: int)
    requires
        v.wf(),
        is_selected(v, scope, i),
        v.items[i].priority is Some,
        v.items[i].priority != effective(v, scope, v.items[i].id),
    ensures
        v.items.filter(
            lends(v, scope, v.items[i].id, effective(v, scope, v.items[i].id)->0),
        ).len() > 0,
{
    let id = v.items[i].id;
    let p = choose|p: Priority| is_effective(v, scope, id, p);
    let k = choose|k: int|
        0 <= k < v.items.len() && urges(#[trigger] v.items[k]) && v.items[k].priority == Some(p)
            && feels(v, scope, id, v.items[k].id);
    let cond = lends(v, scope, id, p);
    if v.items[k].id == id {
        lemma_at(v, k);
        lemma_at(v, i);
    }
    assert(cond(v.items[k]));
    crate::select::lemma_filter_contains(v.items, cond);
    assert(v.items.filter(cond).contains(v.items[k]));
}

} // verus!
