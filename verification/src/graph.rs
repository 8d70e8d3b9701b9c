//! Reachability over directed edges between texts.

use vstd::prelude::*;

verus! {

/// A directed edge.
#[derive(Debug)]
pub struct Edge {
    pub src: String,
    pub dst: String,
}

/// The edges as pairs of texts.
pub open spec fn pairs_of(edges: Seq<Edge>) -> Seq<(Seq<char>, Seq<char>)> {
    Seq::new(edges.len(), |i: int| (edges[i].src@, edges[i].dst@))
}

/// Whether `b` is reached from `a` in at most `steps` steps.
pub open spec fn within(
    edges: Seq<(Seq<char>, Seq<char>)>,
    steps: nat,
    a: Seq<char>,
    b: Seq<char>,
) -> bool
    decreases steps,
{
    a == b || (steps > 0 && exists|i: int|
        0 <= i < edges.len() && (#[trigger] edges[i]).1 == b && within(
            edges,
            (steps - 1) as nat,
            a,
            edges[i].0,
        ))
}

/// Whether `b` is reached from `a` at all.
pub open spec fn connected(
    edges: Seq<(Seq<char>, Seq<char>)>,
    a: Seq<char>,
    b: Seq<char>,
) -> bool {
    exists|steps: nat| #[trigger] within(edges, steps, a, b)
}

/// Whether no edge closes a cycle.
pub open spec fn acyclic(edges: Seq<(Seq<char>, Seq<char>)>) -> bool {
    forall|i: int|
        0 <= i < edges.len() ==> !connected(edges, (#[trigger] edges[i]).1, edges[i].0)
}

/// More steps reach no less.
pub proof fn lemma_within_more(
    edges: Seq<(Seq<char>, Seq<char>)>,
    m: nat,
    n: nat,
    a: Seq<char>,
    b: Seq<char>,
)
    requires
        m <= n,
        within(edges, m, a, b),
    ensures
        within(edges, n, a, b),
    decreases m,
{
    if a != b {
        let i = choose|i: int|
            0 <= i < edges.len() && (#[trigger] edges[i]).1 == b && within(
                edges,
                (m - 1) as nat,
                a,
                edges[i].0,
            );
        lemma_within_more(edges, (m - 1) as nat, (n - 1) as nat, a, edges[i].0);
    }
}

/// A way from `a` to `b` and one from `b` to `c` make one from `a` to `c`.
pub proof fn lemma_within_joins(
    edges: Seq<(Seq<char>, Seq<char>)>,
    m: nat,
    n: nat,
    a: Seq<char>,
    b: Seq<char>,
    c: Seq<char>,
)
    requires
        within(edges, m, a, b),
        within(edges, n, b, c),
    ensures
        within(edges, m + n, a, c),
    decreases n,
{
    if b == c {
        lemma_within_more(edges, m, m + n, a, c);
    } else {
        let i = choose|i: int|
            0 <= i < edges.len() && (#[trigger] edges[i]).1 == c && within(
                edges,
                (n - 1) as nat,
                b,
                edges[i].0,
            );
        lemma_within_joins(edges, m, (n - 1) as nat, a, b, edges[i].0);
        assert(((m + n) - 1) as nat == m + (n - 1) as nat);
        assert(edges[i].1 == c);
    }
}

/// An edge joins its ends.
pub proof fn lemma_edge_within(edges: Seq<(Seq<char>, Seq<char>)>, i: int)
    requires
        0 <= i < edges.len(),
    ensures
        within(edges, 1, edges[i].0, edges[i].1),
{
    assert(within(edges, 0, edges[i].0, edges[i].0));
    assert(edges[i].1 == edges[i].1);
}

/// Fewer edges reach no more.
pub proof fn lemma_within_subset(
    some: Seq<(Seq<char>, Seq<char>)>,
    all: Seq<(Seq<char>, Seq<char>)>,
    steps: nat,
    a: Seq<char>,
    b: Seq<char>,
)
    requires
        forall|i: int| 0 <= i < some.len() ==> all.contains(#[trigger] some[i]),
        within(some, steps, a, b),
    ensures
        within(all, steps, a, b),
    decreases steps,
{
    if a != b {
        let i = choose|i: int|
            0 <= i < some.len() && (#[trigger] some[i]).1 == b && within(
                some,
                (steps - 1) as nat,
                a,
                some[i].0,
            );
        lemma_within_subset(some, all, (steps - 1) as nat, a, some[i].0);
        assert(all.contains(some[i]));
        let j = choose|j: int| 0 <= j < all.len() && all[j] == some[i];
        assert(all[j].1 == b);
    }
}

/// Taking edges away closes no cycle.
pub proof fn lemma_acyclic_subset(
    some: Seq<(Seq<char>, Seq<char>)>,
    all: Seq<(Seq<char>, Seq<char>)>,
)
    requires
        forall|i: int| 0 <= i < some.len() ==> all.contains(#[trigger] some[i]),
        acyclic(all),
    ensures
        acyclic(some),
{
    assert forall|i: int| 0 <= i < some.len() implies !connected(
        some,
        (#[trigger] some[i]).1,
        some[i].0,
    ) by {
        if connected(some, some[i].1, some[i].0) {
            let steps = choose|steps: nat| #[trigger] within(some, steps, some[i].1, some[i].0);
            lemma_within_subset(some, all, steps, some[i].1, some[i].0);
            assert(all.contains(some[i]));
            let j = choose|j: int| 0 <= j < all.len() && all[j] == some[i];
            assert(connected(all, all[j].1, all[j].0));
        }
    }
}

/// With one more edge, a way either goes without it or passes it.
proof fn lemma_within_with_edge(
    edges: Seq<(Seq<char>, Seq<char>)>,
    edge: (Seq<char>, Seq<char>),
    steps: nat,
    a: Seq<char>,
    b: Seq<char>,
)
    requires
        within(edges.push(edge), steps, a, b),
    ensures
        connected(edges, a, b) || (connected(edges, a, edge.0) && connected(edges, edge.1, b)),
    decreases steps,
{
    let more = edges.push(edge);
    if a == b {
        assert(within(edges, 0, a, b));
    } else {
        let i = choose|i: int|
            0 <= i < more.len() && (#[trigger] more[i]).1 == b && within(
                more,
                (steps - 1) as nat,
                a,
                more[i].0,
            );
        lemma_within_with_edge(edges, edge, (steps - 1) as nat, a, more[i].0);
        if i == edges.len() {
            assert(more[i] == edge);
            assert(within(edges, 0, edge.1, b));
        } else {
            assert(more[i] == edges[i]);
            lemma_edge_within(edges, i);
            if connected(edges, a, edges[i].0) {
                let m = choose|m: nat| #[trigger] within(edges, m, a, edges[i].0);
                lemma_within_joins(edges, m, 1, a, edges[i].0, b);
            } else {
                let m = choose|m: nat| #[trigger] within(edges, m, edge.1, edges[i].0);
                lemma_within_joins(edges, m, 1, edge.1, edges[i].0, b);
            }
        }
    }
}

/// An edge from `a` to `b` closes no cycle where `a` is not reached from `b`.
pub proof fn lemma_acyclic_push(
    edges: Seq<(Seq<char>, Seq<char>)>,
    edge: (Seq<char>, Seq<char>),
)
    requires
        acyclic(edges),
        !connected(edges, edge.1, edge.0),
    ensures
        acyclic(edges.push(edge)),
{
    let more = edges.push(edge);
    assert forall|i: int| 0 <= i < more.len() implies !connected(
        more,
        (#[trigger] more[i]).1,
        more[i].0,
    ) by {
        if connected(more, more[i].1, more[i].0) {
            let steps = choose|steps: nat| #[trigger] within(more, steps, more[i].1, more[i].0);
            lemma_within_with_edge(edges, edge, steps, more[i].1, more[i].0);
            if i < edges.len() {
                assert(more[i] == edges[i]);
                assert(!connected(edges, edges[i].1, edges[i].0));
                let p = choose|p: nat| #[trigger] within(edges, p, edges[i].1, edge.0);
                let q = choose|q: nat| #[trigger] within(edges, q, edge.1, edges[i].0);
                lemma_edge_within(edges, i);
                lemma_within_joins(edges, q, 1, edge.1, edges[i].0, edges[i].1);
                lemma_within_joins(edges, q + 1, p, edge.1, edges[i].1, edge.0);
                assert(connected(edges, edge.1, edge.0));
            }
        }
    }
}

/// The texts of a list.
pub open spec fn texts(list: Seq<String>) -> Seq<Seq<char>> {
    Seq::new(list.len(), |i: int| list[i]@)
}

/// Whether the first `count` texts of a list hold a text.
pub fn among(list: &Vec<String>, count: usize, text: &str) -> (r: bool)
    requires
        count <= list@.len(),
    ensures
        r == texts(list@).take(count as int).contains(text@),
{
    let mut i: usize = 0;
    while i < count
        invariant
            0 <= i <= count,
            count <= list@.len(),
            forall|k: int| 0 <= k < i ==> texts(list@)[k] != text@,
        decreases count - i,
    {
        if crate::text::same_text(list[i].as_str(), text) {
            proof {
                assert(texts(list@).take(count as int)[i as int] == text@);
            }
            return true;
        }
        i = i + 1;
    }
    proof {
        assert(!texts(list@).take(count as int).contains(text@)) by {
            if texts(list@).take(count as int).contains(text@) {
                let k = choose|k: int| 0 <= k < count && texts(list@).take(count as int)[k] == text@;
                assert(texts(list@)[k] == text@);
            }
        }
    }
    false
}

/// Whether a list holds a text.
pub fn contains_text(list: &Vec<String>, text: &str) -> (r: bool)
    ensures
        r == texts(list@).contains(text@),
{
    let n: usize = list.len();
    proof {
        assert(texts(list@).take(n as int) =~= texts(list@));
    }
    among(list, n, text)
}

/// The list holds the texts that `steps` steps lead to, each once.
pub open spec fn lists_within(
    list: Seq<Seq<char>>,
    edges: Seq<(Seq<char>, Seq<char>)>,
    start: Seq<char>,
    steps: nat,
) -> bool {
    &&& list.no_duplicates()
    &&& forall|x: Seq<char>| #[trigger] list.contains(x) == within(edges, steps, start, x)
}

/// Adds what one further step leads to.
fn expand(
    edges: &Vec<Edge>,
    list: &mut Vec<String>,
    Ghost(start): Ghost<Seq<char>>,
    Ghost(steps): Ghost<nat>,
)
    requires
        lists_within(texts(old(list)@), pairs_of(edges@), start, steps),
    ensures
        lists_within(texts(final(list)@), pairs_of(edges@), start, steps + 1),
        final(list)@.len() >= old(list)@.len(),
        final(list)@.len() == old(list)@.len() ==> texts(final(list)@) == texts(old(list)@),
{
    let n: usize = list.len();
    let ghost before = texts(list@);
    let ghost pairs = pairs_of(edges@);
    let mut i: usize = 0;
    proof {
        assert(before.take(n as int) =~= before);
    }
    while i < edges.len()
        invariant
            0 <= i <= edges@.len(),
            n <= list@.len(),
            n == before.len(),
            pairs == pairs_of(edges@),
            texts(list@).take(n as int) == before,
            texts(list@).no_duplicates(),
            list@.len() == n ==> texts(list@) == before,
            forall|x: Seq<char>| #[trigger]
                texts(list@).contains(x) == (before.contains(x) || exists|k: int|
                    0 <= k < i && (#[trigger] pairs[k]).1 == x && before.contains(pairs[k].0)),
        decreases edges@.len() - i,
    {
        let known = contains_text(list, edges[i].dst.as_str());
        let ghost prior = texts(list@);
        if !known && among(list, n, edges[i].src.as_str()) {
            list.push(edges[i].dst.clone());
            proof {
                let now = texts(list@);
                assert(now =~= prior.push(pairs[i as int].1));
                assert(now.take(n as int) =~= before);
                assert forall|x: Seq<char>| #[trigger] now.contains(x) == (before.contains(x)
                    || exists|k: int|
                    0 <= k < i + 1 && (#[trigger] pairs[k]).1 == x && before.contains(
                        pairs[k].0,
                    )) by {
                    if now.contains(x) {
                        let m = choose|m: int| 0 <= m < now.len() && now[m] == x;
                        if m < prior.len() {
                            assert(prior[m] == x);
                            assert(prior.contains(x));
                        } else {
                            assert(pairs[i as int].1 == x);
                        }
                    }
                    if prior.contains(x) {
                        let m = choose|m: int| 0 <= m < prior.len() && prior[m] == x;
                        assert(now[m] == x);
                    }
                    if x == pairs[i as int].1 {
                        assert(now[prior.len() as int] == x);
                    }
                    if before.contains(x) {
                        assert(prior.contains(x));
                    }
                }
            }
        } else {
            proof {
                assert forall|x: Seq<char>| #[trigger] prior.contains(x) == (before.contains(x)
                    || exists|k: int|
                    0 <= k < i + 1 && (#[trigger] pairs[k]).1 == x && before.contains(
                        pairs[k].0,
                    )) by {
                    if prior.contains(x) && !before.contains(x) {
                        let k = choose|k: int|
                            0 <= k < i && (#[trigger] pairs[k]).1 == x && before.contains(
                                pairs[k].0,
                            );
                        assert(0 <= k < i + 1 && pairs[k].1 == x);
                    }
                    if exists|k: int|
                        0 <= k < i + 1 && (#[trigger] pairs[k]).1 == x && before.contains(
                            pairs[k].0,
                        ) {
                        let k = choose|k: int|
                            0 <= k < i + 1 && (#[trigger] pairs[k]).1 == x && before.contains(
                                pairs[k].0,
                            );
                        if k == i {
                            assert(known);
                        } else {
                            assert(prior.contains(x));
                        }
                    }
                }
            }
        }
        i = i + 1;
    }
    proof {
        let now = texts(list@);
        assert forall|x: Seq<char>| #[trigger] now.contains(x) == within(
            pairs,
            steps + 1,
            start,
            x,
        ) by {
            assert(before.contains(x) == within(pairs, steps, start, x));
            if now.contains(x) {
                if before.contains(x) {
                    lemma_within_more(pairs, steps, steps + 1, start, x);
                } else {
                    let k = choose|k: int|
                        0 <= k < edges@.len() && (#[trigger] pairs[k]).1 == x && before.contains(
                            pairs[k].0,
                        );
                    assert(within(pairs, steps, start, pairs[k].0));
                    assert(((steps + 1) - 1) as nat == steps);
                    assert(pairs[k].1 == x);
                }
            }
            if within(pairs, steps + 1, start, x) {
                if start == x {
                    assert(within(pairs, steps, start, x));
                } else {
                    let k = choose|k: int|
                        0 <= k < pairs.len() && (#[trigger] pairs[k]).1 == x && within(
                            pairs,
                            ((steps + 1) - 1) as nat,
                            start,
                            pairs[k].0,
                        );
                    assert(before.contains(pairs[k].0));
                    assert(0 <= k < edges@.len());
                }
            }
        }
    }
}

/// Where one further step leads nowhere new, no number of steps does.
proof fn lemma_settled(
    edges: Seq<(Seq<char>, Seq<char>)>,
    start: Seq<char>,
    steps: nat,
    more: nat,
    x: Seq<char>,
)
    requires
        forall|y: Seq<char>| #[trigger]
            within(edges, steps + 1, start, y) ==> within(edges, steps, start, y),
        within(edges, more, start, x),
    ensures
        within(edges, steps, start, x),
    decreases more,
{
    if start == x {
    } else {
        let k = choose|k: int|
            0 <= k < edges.len() && (#[trigger] edges[k]).1 == x && within(
                edges,
                (more - 1) as nat,
                start,
                edges[k].0,
            );
        lemma_settled(edges, start, steps, (more - 1) as nat, edges[k].0);
        assert(((steps + 1) - 1) as nat == steps);
        assert(edges[k].1 == x);
        assert(within(edges, steps + 1, start, x));
    }
}

/// No more texts are reached than there are edges, and the start.
proof fn lemma_reach_bound(
    list: Seq<Seq<char>>,
    edges: Seq<(Seq<char>, Seq<char>)>,
    start: Seq<char>,
    steps: nat,
)
    requires
        lists_within(list, edges, start, steps),
    ensures
        list.len() <= edges.len() + 1,
{
    let ends = Seq::new(edges.len(), |i: int| edges[i].1).push(start);
    assert forall|x: Seq<char>| list.to_set().contains(x) implies ends.to_set().contains(x) by {
        assert(list.contains(x));
        if x == start {
            assert(ends[edges.len() as int] == x);
        } else {
            let k = choose|k: int|
                0 <= k < edges.len() && (#[trigger] edges[k]).1 == x && within(
                    edges,
                    (steps - 1) as nat,
                    start,
                    edges[k].0,
                );
            assert(ends[k] == x);
        }
    }
    list.unique_seq_to_set();
    ends.lemma_cardinality_of_set();
    vstd::set_lib::lemma_len_subset(list.to_set(), ends.to_set());
}

/// The texts that at most `limit` steps lead to.
pub fn reach_within(edges: &Vec<Edge>, start: &str, limit: usize) -> (r: Vec<String>)
    ensures
        lists_within(texts(r@), pairs_of(edges@), start@, limit as nat),
{
    let mut list: Vec<String> = Vec::new();
    list.push(start.to_owned());
    let ghost pairs = pairs_of(edges@);
    proof {
        assert(texts(list@) =~= seq![start@]);
        assert forall|x: Seq<char>| #[trigger]
            texts(list@).contains(x) == within(pairs, 0, start@, x) by {
            assert(texts(list@)[0] == start@);
        }
    }
    let mut done: usize = 0;
    while done < limit
        invariant
            0 <= done <= limit,
            pairs == pairs_of(edges@),
            lists_within(texts(list@), pairs, start@, done as nat),
        decreases limit - done,
    {
        let before: usize = list.len();
        let ghost prior = texts(list@);
        expand(edges, &mut list, Ghost(start@), Ghost(done as nat));
        if list.len() == before {
            proof {
                assert forall|x: Seq<char>| #[trigger]
                    texts(list@).contains(x) == within(pairs, limit as nat, start@, x) by {
                    assert forall|y: Seq<char>| #[trigger]
                        within(pairs, done as nat + 1, start@, y) implies within(
                        pairs,
                        done as nat,
                        start@,
                        y,
                    ) by {
                        assert(texts(list@).contains(y));
                        assert(prior.contains(y));
                    }
                    if within(pairs, limit as nat, start@, x) {
                        lemma_settled(pairs, start@, done as nat, limit as nat, x);
                        assert(prior.contains(x));
                    }
                    if texts(list@).contains(x) {
                        assert(prior.contains(x));
                        lemma_within_more(pairs, done as nat, limit as nat, start@, x);
                    }
                }
            }
            return list;
        }
        done = done + 1;
    }
    list
}

/// Whether the edges lead from one text to another.
pub fn leads_to(edges: &Vec<Edge>, start: &str, goal: &str) -> (r: bool)
    ensures
        r == connected(pairs_of(edges@), start@, goal@),
{
    let mut list: Vec<String> = Vec::new();
    list.push(start.to_owned());
    let ghost pairs = pairs_of(edges@);
    let ghost mut steps: nat = 0;
    proof {
        assert(texts(list@) =~= seq![start@]);
        assert forall|x: Seq<char>| #[trigger]
            texts(list@).contains(x) == within(pairs, 0, start@, x) by {
            assert(texts(list@)[0] == start@);
        }
    }
    loop
        invariant
            pairs == pairs_of(edges@),
            lists_within(texts(list@), pairs, start@, steps),
        decreases edges@.len() + 1 - list@.len(),
    {
        let before: usize = list.len();
        let ghost prior = texts(list@);
        expand(edges, &mut list, Ghost(start@), Ghost(steps));
        if list.len() == before {
            let found = contains_text(&list, goal);
            proof {
                assert forall|y: Seq<char>| #[trigger]
                    within(pairs, steps + 1, start@, y) implies within(pairs, steps, start@, y) by {
                    assert(texts(list@).contains(y));
                    assert(prior.contains(y));
                }
                if connected(pairs, start@, goal@) {
                    let more = choose|more: nat| #[trigger] within(pairs, more, start@, goal@);
                    lemma_settled(pairs, start@, steps, more, goal@);
                    assert(prior.contains(goal@));
                }
                if found {
                    assert(within(pairs, steps + 1, start@, goal@));
                }
            }
            return found;
        }
        proof {
            lemma_reach_bound(texts(list@), pairs, start@, steps + 1);
            steps = steps + 1;
        }
    }
}

} // verus!
