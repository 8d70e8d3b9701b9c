//! Selections of rows: which rows of a table a condition picks, in order.

use vstd::prelude::*;

verus! {

/// The rows at the given places.
pub open spec fn picked<A>(rows: Seq<A>, places: Seq<usize>) -> Seq<A> {
    Seq::new(places.len(), |k: int| rows[places[k] as int])
}

/// Every place is one of the table.
pub open spec fn in_table(places: Seq<usize>, len: int) -> bool {
    forall|k: int| 0 <= k < places.len() ==> (#[trigger] places[k]) < len
}

/// One row more: it joins the selection where it meets the condition.
pub proof fn lemma_filter_step<A>(rows: Seq<A>, cond: spec_fn(A) -> bool, i: int)
    requires
        0 <= i < rows.len(),
    ensures
        rows.take(i + 1).filter(cond) == (if cond(rows[i]) {
            rows.take(i).filter(cond).push(rows[i])
        } else {
            rows.take(i).filter(cond)
        }),
{
    reveal(Seq::filter);
    assert(rows.take(i + 1).drop_last() =~= rows.take(i));
    assert(rows.take(i + 1).last() == rows[i]);
}

/// The selection from the whole table.
pub proof fn lemma_filter_all<A>(rows: Seq<A>, cond: spec_fn(A) -> bool)
    ensures
        rows.take(rows.len() as int).filter(cond) == rows.filter(cond),
{
    assert(rows.take(rows.len() as int) =~= rows);
}

/// The selection from no rows.
pub proof fn lemma_filter_none<A>(rows: Seq<A>, cond: spec_fn(A) -> bool)
    ensures
        rows.take(0).filter(cond) == Seq::<A>::empty(),
{
    reveal(Seq::filter);
    assert(rows.take(0) =~= Seq::<A>::empty());
    assert(rows.take(0).filter(cond).len() == 0);
}

/// A selection holds rows of the table that meet the condition, and all of
/// them.
pub proof fn lemma_filter_contains<A>(rows: Seq<A>, cond: spec_fn(A) -> bool)
    ensures
        forall|i: int|
            0 <= i < rows.filter(cond).len() ==> cond(#[trigger] rows.filter(cond)[i])
                && rows.contains(rows.filter(cond)[i]),
        forall|i: int|
            0 <= i < rows.len() && cond(#[trigger] rows[i]) ==> rows.filter(cond).contains(rows[i]),
        rows.filter(cond).len() <= rows.len(),
    decreases rows.len(),
{
    reveal(Seq::filter);
    if rows.len() > 0 {
        let rest = rows.drop_last();
        lemma_filter_contains(rest, cond);
        let kept = rest.filter(cond);
        let all = rows.filter(cond);
        assert forall|i: int| 0 <= i < all.len() implies cond(#[trigger] all[i]) && rows.contains(
            all[i],
        ) by {
            if i < kept.len() {
                assert(all[i] == kept[i]);
                let j = choose|j: int| 0 <= j < rest.len() && rest[j] == kept[i];
                assert(rows[j] == all[i]);
            } else {
                assert(rows[rows.len() - 1] == all[i]);
            }
        }
        assert forall|i: int| 0 <= i < rows.len() && cond(#[trigger] rows[i]) implies all.contains(
            rows[i],
        ) by {
            if i < rest.len() {
                assert(rest[i] == rows[i]);
                let j = choose|j: int| 0 <= j < kept.len() && kept[j] == rows[i];
                assert(all[j] == rows[i]);
            } else {
                assert(all[all.len() - 1] == rows[i]);
            }
        }
    }
}

/// The first row that meets a condition begins the selection.
pub proof fn lemma_first<A>(rows: Seq<A>, cond: spec_fn(A) -> bool, i: int)
    requires
        0 <= i < rows.len(),
        cond(rows[i]),
        rows.take(i).filter(cond).len() == 0,
    ensures
        rows.filter(cond).len() > 0,
        rows.filter(cond)[0] == rows[i],
{
    lemma_filter_step(rows, cond, i);
    let head = rows.take(i + 1);
    let tail = rows.skip(i + 1);
    assert(head + tail =~= rows);
    Seq::filter_distributes_over_add(head, tail, cond);
}

} // verus!
