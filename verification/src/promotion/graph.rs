//! The Items and Dependencies that a Promotion is judged over.

use vstd::prelude::*;

use crate::domain::{
    BackendBinding, BindingView, ItemClass, ItemStatus, SelectionState, TicketKind,
};
use crate::mutations::{binding, resolve_backend_binding, BackendBindingError, BindingFault};
use crate::rows::{copy_text, opt_text, text_is, ItemView};
use crate::select::{in_table, lemma_filter_all, lemma_filter_none, lemma_filter_step, picked};
use crate::tables::{lemma_at, waits, Fault, Store, StoreView};
use crate::text::{
    lemma_text_le_antisym, lemma_text_le_total, lemma_text_le_trans, not_after, same_text, text_le,
};

verus! {

/// Why the graph could not be read.
#[derive(Debug)]
pub enum ReadGraphError {
    /// No Item has the internal ID of the target.
    Storage(Fault),
    /// The Backend Binding of a member could not be told.
    BackendBinding(BackendBindingError),
}

/// One Item of the graph.
#[derive(Clone, Debug, PartialEq, Eq)]
pub struct GraphItem {
    pub id: String,
    pub display_id: String,
    pub item_class: ItemClass,
    pub ticket_kind: Option<TicketKind>,
    pub selection_state: Option<SelectionState>,
    pub status: ItemStatus,
    pub title: String,
    pub body: String,
    pub created_seq: i64,
    pub container_id: Option<String>,
    pub backend_binding: BackendBinding,
}

impl GraphItem {
    /// Whether the graph shows the Item with the Backend Binding.
    pub open spec fn shows(&self, item: ItemView, bound: BindingView) -> bool {
        &&& self.id@ == item.id
        &&& self.display_id@ == item.display_id
        &&& self.item_class == item.item_class
        &&& self.ticket_kind == item.ticket_kind
        &&& self.selection_state == item.selection_state
        &&& self.status == item.status()
        &&& self.title@ == item.title
        &&& self.body@ == item.body
        &&& self.created_seq == item.created_seq
        &&& opt_text(self.container_id) == item.container_id
        &&& self.backend_binding@ == bound
    }
}

/// One Dependency of the graph.
#[derive(Clone, Debug, PartialEq, Eq)]
pub struct GraphDependency {
    pub blocked_id: String,
    pub blocking_id: String,
}

/// The Items and Dependencies that a Promotion is judged over.
#[derive(Clone, Debug, PartialEq, Eq)]
pub struct PromotionGraph {
    pub target_id: String,
    pub children_requested: bool,
    /// The Items, in creation order.
    pub items: Vec<GraphItem>,
    /// The Dependencies, by the blocked and then the blocking Item.
    pub dependencies: Vec<GraphDependency>,
}

/// The target, what contains it, and what it contains.
pub open spec fn in_core(v: StoreView, target: Seq<char>, id: Seq<char>) -> bool {
    ||| id == target
    ||| v.item(target).container_id == Some(id)
    ||| v.has(id) && v.item(id).container_id == Some(target)
}

/// Whether a Dependency touches the core.
pub open spec fn touches(v: StoreView, target: Seq<char>, pair: (Seq<char>, Seq<char>)) -> bool {
    waits(v.dependencies).contains(pair) && (in_core(v, target, pair.0) || in_core(
        v,
        target,
        pair.1,
    ))
}

/// The core, and both ends of every Dependency that touches it.
pub open spec fn in_graph(v: StoreView, target: Seq<char>, id: Seq<char>) -> bool {
    ||| in_core(v, target, id)
    ||| exists|other: Seq<char>| #[trigger] touches(v, target, (id, other))
    ||| exists|other: Seq<char>| #[trigger] touches(v, target, (other, id))
}

/// The condition that picks the members of the graph.
pub open spec fn graph_member(v: StoreView, target: Seq<char>) -> spec_fn(ItemView) -> bool {
    |item: ItemView| in_graph(v, target, item.id)
}

/// Whether one text comes before another.
pub open spec fn text_lt(a: Seq<char>, b: Seq<char>) -> bool {
    text_le(a, b) && a != b
}

/// Whether one pair comes before another, by its first and then its second
/// text.
pub open spec fn pair_lt(a: (Seq<char>, Seq<char>), b: (Seq<char>, Seq<char>)) -> bool {
    text_lt(a.0, b.0) || (a.0 == b.0 && text_lt(a.1, b.1))
}

/// The Dependencies of a graph as pairs.
pub open spec fn graph_pairs(dependencies: Seq<GraphDependency>) -> Seq<(Seq<char>, Seq<char>)> {
    Seq::new(
        dependencies.len(),
        |i: int| (dependencies[i].blocked_id@, dependencies[i].blocking_id@),
    )
}

/// Pairs in strictly ascending order.
pub open spec fn ascending(pairs: Seq<(Seq<char>, Seq<char>)>) -> bool {
    forall|i: int, j: int|
        0 <= i < j < pairs.len() ==> pair_lt(#[trigger] pairs[i], #[trigger] pairs[j])
}

fn is_in_core(store: &Store, target: usize, id: &str) -> (r: bool)
    requires
        store.wf(),
        target < store@.items.len(),
    ensures
        r == in_core(store@, store@.items[target as int].id, id@),
{
    proof {
        lemma_at(store@, target as int);
    }
    let t = store.item(target);
    if same_text(id, t.id.as_str()) || text_is(&t.container_id, id) {
        return true;
    }
    match store.find(id) {
        Some(i) => text_is(&store.item(i).container_id, t.id.as_str()),
        None => false,
    }
}

pub proof fn lemma_pair_lt_trans(
    a: (Seq<char>, Seq<char>),
    b: (Seq<char>, Seq<char>),
    c: (Seq<char>, Seq<char>),
)
    requires
        pair_lt(a, b),
        pair_lt(b, c),
    ensures
        pair_lt(a, c),
{
    if text_lt(a.0, b.0) && text_lt(b.0, c.0) {
        lemma_text_le_trans(a.0, b.0, c.0);
        if a.0 == c.0 {
            lemma_text_le_antisym(a.0, b.0);
        }
    } else if a.0 == b.0 && b.0 == c.0 {
        lemma_text_le_trans(a.1, b.1, c.1);
        if a.1 == c.1 {
            lemma_text_le_antisym(a.1, b.1);
        }
    }
}

pub proof fn lemma_pair_lt_total(a: (Seq<char>, Seq<char>), b: (Seq<char>, Seq<char>))
    requires
        a != b,
    ensures
        pair_lt(a, b) || pair_lt(b, a),
{
    lemma_text_le_total(a.0, b.0);
    lemma_text_le_total(a.1, b.1);
    if a.0 == b.0 {
        assert(a.1 != b.1);
    }
}

/// Pairs in strictly ascending order are told by what they hold.
pub proof fn lemma_ascending_unique(
    a: Seq<(Seq<char>, Seq<char>)>,
    b: Seq<(Seq<char>, Seq<char>)>,
)
    requires
        ascending(a),
        ascending(b),
        forall|p: (Seq<char>, Seq<char>)| #[trigger] a.contains(p) == b.contains(p),
    ensures
        a == b,
    decreases a.len(),
{
    if a.len() == 0 {
        if b.len() > 0 {
            assert(b.contains(b[0]));
            assert(a.contains(b[0]));
        }
        assert(a =~= b);
    } else {
        assert(a.contains(a[0]));
        assert(b.contains(a[0]));
        let j = choose|j: int| 0 <= j < b.len() && b[j] == a[0];
        assert(b.contains(b[0]));
        assert(a.contains(b[0]));
        let i = choose|i: int| 0 <= i < a.len() && a[i] == b[0];
        if a[0] != b[0] {
            assert(pair_lt(b[0], b[j]));
            assert(pair_lt(a[0], a[i]));
            lemma_pair_lt_trans(a[0], b[0], a[0]);
        }
        let at = a.drop_first();
        let bt = b.drop_first();
        assert(ascending(at)) by {
            assert forall|x: int, y: int| 0 <= x < y < at.len() implies pair_lt(
                #[trigger] at[x],
                #[trigger] at[y],
            ) by {
                assert(at[x] == a[x + 1] && at[y] == a[y + 1]);
            }
        }
        assert(ascending(bt)) by {
            assert forall|x: int, y: int| 0 <= x < y < bt.len() implies pair_lt(
                #[trigger] bt[x],
                #[trigger] bt[y],
            ) by {
                assert(bt[x] == b[x + 1] && bt[y] == b[y + 1]);
            }
        }
        assert forall|p: (Seq<char>, Seq<char>)| #[trigger] at.contains(p) == bt.contains(p) by {
            if at.contains(p) {
                let x = choose|x: int| 0 <= x < at.len() && at[x] == p;
                assert(a[x + 1] == p);
                assert(pair_lt(a[0], a[x + 1]));
                assert(a.contains(p));
                assert(b.contains(p));
                let y = choose|y: int| 0 <= y < b.len() && b[y] == p;
                if y == 0 {
                    assert(a[0] == p);
                }
                assert(bt[y - 1] == p);
            }
            if bt.contains(p) {
                let x = choose|x: int| 0 <= x < bt.len() && bt[x] == p;
                assert(b[x + 1] == p);
                assert(pair_lt(b[0], b[x + 1]));
                assert(b.contains(p));
                assert(a.contains(p));
                let y = choose|y: int| 0 <= y < a.len() && a[y] == p;
                if y == 0 {
                    assert(b[0] == p);
                }
                assert(at[y - 1] == p);
            }
        }
        lemma_ascending_unique(at, bt);
        assert(a =~= seq![a[0]] + at);
        assert(b =~= seq![b[0]] + bt);
    }
}

fn pair_before(a0: &str, a1: &str, b0: &str, b1: &str) -> (r: bool)
    ensures
        r == pair_lt((a0@, a1@), (b0@, b1@)),
{
    if same_text(a0, b0) {
        not_after(a1, b1) && !same_text(a1, b1)
    } else {
        not_after(a0, b0)
    }
}

/// Adds a pair to pairs in order.
pub(crate) fn insert_pair(list: &mut Vec<GraphDependency>, blocked_id: &str, blocking_id: &str)
    requires
        ascending(graph_pairs(old(list)@)),
        !graph_pairs(old(list)@).contains((blocked_id@, blocking_id@)),
    ensures
        ascending(graph_pairs(final(list)@)),
        forall|p: (Seq<char>, Seq<char>)| #[trigger]
            graph_pairs(final(list)@).contains(p) == (p == (blocked_id@, blocking_id@)
                || graph_pairs(old(list)@).contains(p)),
{
    let ghost pairs = graph_pairs(list@);
    let ghost new = (blocked_id@, blocking_id@);
    let mut n: usize = 0;
    while n < list.len() && pair_before(
        list[n].blocked_id.as_str(),
        list[n].blocking_id.as_str(),
        blocked_id,
        blocking_id,
    )
        invariant
            0 <= n <= list@.len(),
            pairs == graph_pairs(list@),
            new == (blocked_id@, blocking_id@),
            forall|k: int| 0 <= k < n ==> pair_lt(#[trigger] pairs[k], new),
        decreases list@.len() - n,
    {
        n = n + 1;
    }
    proof {
        assert forall|k: int| n <= k < pairs.len() implies pair_lt(new, #[trigger] pairs[k]) by {
            assert(pairs.contains(pairs[n as int]));
            lemma_pair_lt_total(pairs[n as int], new);
            if k > n {
                lemma_pair_lt_trans(new, pairs[n as int], pairs[k]);
            }
        }
    }
    let ghost before = list@;
    list.insert(
        n,
        GraphDependency { blocked_id: blocked_id.to_owned(), blocking_id: blocking_id.to_owned() },
    );
    proof {
        let now = graph_pairs(list@);
        assert(now =~= pairs.insert(n as int, new));
        crate::keep::lemma_insert_contains(pairs, n as int, new);
        assert forall|i: int, j: int| 0 <= i < j < now.len() implies pair_lt(
            #[trigger] now[i],
            #[trigger] now[j],
        ) by {
            let p = if i < n {
                i
            } else {
                i - 1
            };
            let q = if j < n {
                j
            } else {
                j - 1
            };
            if i == n {
                assert(now[j] == pairs[q]);
            } else if j == n {
                assert(now[i] == pairs[p]);
            } else {
                assert(now[i] == pairs[p] && now[j] == pairs[q]);
            }
        }
    }
}

/// The Dependencies that touch the core, in order.
fn touching(store: &Store, target: usize) -> (r: Vec<GraphDependency>)
    requires
        store.wf(),
        target < store@.items.len(),
    ensures
        ascending(graph_pairs(r@)),
        forall|p: (Seq<char>, Seq<char>)| #[trigger]
            graph_pairs(r@).contains(p) == touches(store@, store@.items[target as int].id, p),
{
    let ghost id = store@.items[target as int].id;
    let ghost all = waits(store@.dependencies);
    let mut out: Vec<GraphDependency> = Vec::new();
    let mut i: usize = 0;
    while i < store.dependency_count()
        invariant
            0 <= i <= store@.dependencies.len(),
            store.wf(),
            target < store@.items.len(),
            id == store@.items[target as int].id,
            all == waits(store@.dependencies),
            ascending(graph_pairs(out@)),
            forall|p: (Seq<char>, Seq<char>)| #[trigger]
                graph_pairs(out@).contains(p) == (all.take(i as int).contains(p) && (in_core(
                    store@,
                    id,
                    p.0,
                ) || in_core(store@, id, p.1))),
        decreases store@.dependencies.len() - i,
    {
        let d = store.dependency(i);
        let ghost pair = all[i as int];
        let ghost head = all.take(i as int);
        let ghost longer = all.take(i + 1);
        proof {
            assert(pair == (d.blocked_id@, d.blocking_id@));
            assert(longer =~= head.push(pair));
            assert(!head.contains(pair)) by {
                if head.contains(pair) {
                    let k = choose|k: int| 0 <= k < head.len() && head[k] == pair;
                    assert(all[k] == all[i as int]);
                }
            }
        }
        let keep = is_in_core(store, target, d.blocked_id.as_str()) || is_in_core(
            store,
            target,
            d.blocking_id.as_str(),
        );
        if keep {
            insert_pair(&mut out, d.blocked_id.as_str(), d.blocking_id.as_str());
        }
        proof {
            assert forall|p: (Seq<char>, Seq<char>)| #[trigger]
                graph_pairs(out@).contains(p) == (longer.contains(p) && (in_core(
                    store@,
                    id,
                    p.0,
                ) || in_core(store@, id, p.1))) by {
                if longer.contains(p) {
                    let k = choose|k: int| 0 <= k < i + 1 && longer[k] == p;
                    if k < i {
                        assert(head[k] == p);
                    } else {
                        assert(p == pair);
                    }
                }
                if head.contains(p) {
                    let k = choose|k: int| 0 <= k < i && head[k] == p;
                    assert(longer[k] == p);
                }
                if p == pair {
                    assert(longer[i as int] == p);
                }
            }
        }
        i = i + 1;
    }
    proof {
        assert(all.take(all.len() as int) =~= all);
    }
    out
}

/// Whether a list of pairs names a text.
fn mentions(list: &Vec<GraphDependency>, id: &str) -> (r: bool)
    ensures
        r == exists|i: int|
            0 <= i < list@.len() && ((#[trigger] graph_pairs(list@)[i]).0 == id@ || graph_pairs(
                list@,
            )[i].1 == id@),
{
    let mut i: usize = 0;
    while i < list.len()
        invariant
            0 <= i <= list@.len(),
            forall|k: int|
                0 <= k < i ==> (#[trigger] graph_pairs(list@)[k]).0 != id@ && graph_pairs(
                    list@,
                )[k].1 != id@,
        decreases list@.len() - i,
    {
        if same_text(list[i].blocked_id.as_str(), id) || same_text(
            list[i].blocking_id.as_str(),
            id,
        ) {
            proof {
                let p = graph_pairs(list@)[i as int];
                assert(p.0 == id@ || p.1 == id@);
            }
            return true;
        }
        i = i + 1;
    }
    false
}

/// The places of the graph's members.
fn members(store: &Store, target: usize, edges: &Vec<GraphDependency>) -> (r: Vec<usize>)
    requires
        store.wf(),
        target < store@.items.len(),
        forall|p: (Seq<char>, Seq<char>)| #[trigger]
            graph_pairs(edges@).contains(p) == touches(store@, store@.items[target as int].id, p),
    ensures
        in_table(r@, store@.items.len() as int),
        picked(store@.items, r@) == store@.items.filter(
            graph_member(store@, store@.items[target as int].id),
        ),
{
    let ghost id = store@.items[target as int].id;
    let ghost cond = graph_member(store@, id);
    let mut out: Vec<usize> = Vec::new();
    let mut i: usize = 0;
    proof {
        lemma_filter_none(store@.items, cond);
        assert(picked(store@.items, out@) =~= Seq::empty());
    }
    while i < store.item_count()
        invariant
            0 <= i <= store@.items.len(),
            store.wf(),
            target < store@.items.len(),
            id == store@.items[target as int].id,
            cond == graph_member(store@, id),
            forall|p: (Seq<char>, Seq<char>)| #[trigger]
                graph_pairs(edges@).contains(p) == touches(store@, id, p),
            in_table(out@, store@.items.len() as int),
            picked(store@.items, out@) == store@.items.take(i as int).filter(cond),
        decreases store@.items.len() - i,
    {
        let item = store.item(i);
        let keep = is_in_core(store, target, item.id.as_str()) || mentions(
            edges,
            item.id.as_str(),
        );
        let ghost pairs = graph_pairs(edges@);
        proof {
            lemma_filter_step(store@.items, cond, i as int);
            let x = item.id@;
            if exists|k: int|
                0 <= k < edges@.len() && ((#[trigger] pairs[k]).0 == x || pairs[k].1 == x) {
                let k = choose|k: int|
                    0 <= k < edges@.len() && ((#[trigger] pairs[k]).0 == x || pairs[k].1 == x);
                assert(pairs.contains(pairs[k]));
                assert(pairs[k] == (pairs[k].0, pairs[k].1));
                assert(touches(store@, id, (pairs[k].0, pairs[k].1)));
            }
            if exists|other: Seq<char>| #[trigger] touches(store@, id, (x, other)) {
                let other = choose|other: Seq<char>| #[trigger] touches(store@, id, (x, other));
                assert(pairs.contains((x, other)));
                let k = choose|k: int| 0 <= k < pairs.len() && pairs[k] == (x, other);
                assert(pairs[k].0 == x);
            }
            if exists|other: Seq<char>| #[trigger] touches(store@, id, (other, x)) {
                let other = choose|other: Seq<char>| #[trigger] touches(store@, id, (other, x));
                assert(pairs.contains((other, x)));
                let k = choose|k: int| 0 <= k < pairs.len() && pairs[k] == (other, x);
                assert(pairs[k].1 == x);
            }
            assert(keep == cond(store@.items[i as int]));
        }
        let ghost before = out@;
        if keep {
            out.push(i);
            proof {
                assert(picked(store@.items, out@) =~= picked(store@.items, before).push(
                    store@.items[i as int],
                ));
            }
        }
        i = i + 1;
    }
    proof {
        lemma_filter_all(store@.items, cond);
    }
    out
}

/// Whether a member's Backend Binding cannot be told, and no member with a
/// lesser internal ID has that fault.
pub open spec fn first_fault(
    v: StoreView,
    members: Seq<ItemView>,
    fault: BindingFault,
) -> bool {
    exists|i: int|
        0 <= i < members.len() && binding(v, (#[trigger] members[i]).id) == Err::<
            BindingView,
            BindingFault,
        >(fault) && forall|j: int|
            0 <= j < members.len() && binding(v, (#[trigger] members[j]).id) is Err ==> text_le(
                members[i].id,
                members[j].id,
            )
}

/// Snapshot the Items and Dependencies that a Promotion of the target is
/// judged over.
///
/// Members are the target, what contains it, what it directly contains,
/// whether or not children were requested, and both ends of every Dependency
/// that touches any of these. Dependencies are followed no further. One whose
/// blocking Item is done stays in the graph.
pub fn read_graph(store: &Store, target_id: &str, children_requested: bool) -> (r: Result<
    PromotionGraph,
    ReadGraphError,
>)
    requires
        store.wf(),
    ensures
        match r {
            Ok(graph) => {
                let members = store@.items.filter(graph_member(store@, target_id@));
                &&& store@.has(target_id@)
                &&& graph.target_id@ == target_id@
                &&& graph.children_requested == children_requested
                &&& graph.items@.len() == members.len()
                &&& forall|i: int|
                    0 <= i < members.len() ==> binding(store@, members[i].id) is Ok && (
                    #[trigger] graph.items@[i]).shows(
                        members[i],
                        binding(store@, members[i].id)->Ok_0,
                    )
                &&& ascending(graph_pairs(graph.dependencies@))
                &&& forall|p: (Seq<char>, Seq<char>)| #[trigger]
                    graph_pairs(graph.dependencies@).contains(p) == touches(
                        store@,
                        target_id@,
                        p,
                    )
            },
            Err(ReadGraphError::Storage(fault)) => fault == Fault::NoRow && !store@.has(
                target_id@,
            ),
            Err(ReadGraphError::BackendBinding(error)) => store@.has(target_id@) && first_fault(
                store@,
                store@.items.filter(graph_member(store@, target_id@)),
                error@,
            ),
        },
{
    let target: usize = match store.find(target_id) {
        Some(target) => target,
        None => {
            return Err(ReadGraphError::Storage(Fault::NoRow));
        },
    };
    let dependencies = touching(store, target);
    let places = members(store, target, &dependencies);
    let ghost rows = picked(store@.items, places@);
    let mut items: Vec<GraphItem> = Vec::new();
    // The fault of the member with the least internal ID so far.
    let mut worst: Option<(usize, BackendBindingError)> = None;
    let mut i: usize = 0;
    while i < places.len()
        invariant
            0 <= i <= places@.len(),
            store.wf(),
            in_table(places@, store@.items.len() as int),
            rows == picked(store@.items, places@),
            match worst {
                None => {
                    &&& items@.len() == i
                    &&& forall|k: int|
                        0 <= k < i ==> binding(store@, rows[k].id) is Ok && (
                        #[trigger] items@[k]).shows(rows[k], binding(store@, rows[k].id)->Ok_0)
                    &&& forall|k: int| 0 <= k < i ==> binding(store@, (#[trigger] rows[k]).id) is Ok
                },
                Some((at, error)) => {
                    &&& at < i
                    &&& binding(store@, rows[at as int].id) == Err::<BindingView, BindingFault>(
                        error@,
                    )
                    &&& forall|k: int|
                        0 <= k < i && binding(store@, (#[trigger] rows[k]).id) is Err ==> text_le(
                            rows[at as int].id,
                            rows[k].id,
                        )
                },
            },
        decreases places@.len() - i,
    {
        let item = store.item(places[i]);
        proof {
            assert(rows[i as int] == item@);
        }
        match resolve_backend_binding(store, item.id.as_str()) {
            Ok(backend_binding) => {
                if worst.is_none() {
                    items.push(
                        GraphItem {
                            id: item.id.clone(),
                            display_id: item.display_id.clone(),
                            item_class: item.item_class,
                            ticket_kind: item.ticket_kind,
                            selection_state: item.selection_state,
                            status: item.status(),
                            title: item.title.clone(),
                            body: item.body.clone(),
                            created_seq: item.created_seq,
                            container_id: copy_text(&item.container_id),
                            backend_binding,
                        },
                    );
                }
            },
            Err(error) => {
                proof {
                    lemma_text_le_total(item.id@, item.id@);
                }
                let replace = match &worst {
                    None => true,
                    Some((at, _)) => {
                        let other = store.item(places[*at]);
                        proof {
                            assert(rows[*at as int] == other@);
                            lemma_text_le_total(item.id@, other.id@);
                        }
                        not_after(item.id.as_str(), other.id.as_str())
                    },
                };
                if replace {
                    proof {
                        if let Some((at, e)) = worst {
                            assert forall|k: int|
                                0 <= k < i + 1 && binding(
                                    store@,
                                    (#[trigger] rows[k]).id,
                                ) is Err implies text_le(item.id@, rows[k].id) by {
                                if k < i {
                                    lemma_text_le_trans(item.id@, rows[at as int].id, rows[k].id);
                                }
                            }
                        }
                    }
                    worst = Some((i, error));
                }
            },
        }
        i = i + 1;
    }
    proof {
        assert(rows == store@.items.filter(graph_member(store@, target_id@)));
    }
    match worst {
        Some((at, error)) => {
            proof {
                assert(binding(store@, rows[at as int].id) == Err::<BindingView, BindingFault>(
                    error@,
                ));
                assert(first_fault(store@, rows, error@));
            }
            Err(ReadGraphError::BackendBinding(error))
        },
        None => Ok(
            PromotionGraph {
                target_id: target_id.to_owned(),
                children_requested,
                items,
                dependencies,
            },
        ),
    }
}

} // verus!
