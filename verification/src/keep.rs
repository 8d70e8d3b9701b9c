//! What the primitive writes keep of the store's invariant.

use vstd::prelude::*;

use crate::domain::ItemClass;
use crate::graph::{connected, lemma_acyclic_push, lemma_acyclic_subset};
use crate::rows::{
    AliasView, DependencyView, ExternalBlockerView, FormerIdentityView, ItemView, MutationView,
};
use crate::tables::{
    blocker_le, blocker_place, ids, keys, mutation_place, place, same_identity, waits, StoreView,
};
use crate::text::{folded, lemma_text_le_antisym, lemma_text_le_total, lemma_text_le_trans};

verus! {

/// Whether a Display ID or Alias is free, ASCII case ignored.
pub open spec fn name_free(v: StoreView, name: Seq<char>) -> bool {
    &&& forall|i: int|
        0 <= i < v.items.len() ==> folded((#[trigger] v.items[i]).display_id) != folded(name)
    &&& forall|i: int|
        0 <= i < v.aliases.len() ==> folded((#[trigger] v.aliases[i]).value) != folded(name)
}

/// Whether a Display ID is free for the Item: it is no Alias, and no other
/// Item has it, ASCII case ignored.
pub open spec fn name_free_for(v: StoreView, id: Seq<char>, name: Seq<char>) -> bool {
    &&& forall|i: int|
        0 <= i < v.items.len() && (#[trigger] v.items[i]).id != id ==> folded(
            v.items[i].display_id,
        ) != folded(name)
    &&& forall|i: int|
        0 <= i < v.aliases.len() ==> folded((#[trigger] v.aliases[i]).value) != folded(name)
}

/// Whether no Item but the given one holds or held a Backend identity.
pub open spec fn identity_free(
    v: StoreView,
    id: Seq<char>,
    kind: Option<Seq<char>>,
    key: Option<Seq<char>>,
) -> bool {
    kind is Some && key is Some ==> {
        &&& forall|i: int|
            0 <= i < v.items.len() && (#[trigger] v.items[i]).backend_kind == kind
                && v.items[i].backend_key == key ==> v.items[i].id == id
        &&& forall|i: int|
            0 <= i < v.former_identities.len() && Some(
                (#[trigger] v.former_identities[i]).backend_kind,
            ) == kind && Some(v.former_identities[i].backend_key) == key
                ==> v.former_identities[i].item_id == id
    }
}

/// Whether an Item's container is an Epic of the store.
pub open spec fn container_ok(v: StoreView, container: Option<Seq<char>>) -> bool {
    container is Some ==> v.has_epic(container->0)
}

/// An Item whose internal ID, class, place, Display ID and Backend identity
/// stay may change in every other way that the store admits.
pub proof fn lemma_edit_item(v: StoreView, i: int, item: ItemView)
    requires
        v.wf(),
        0 <= i < v.items.len(),
        item.id == v.items[i].id,
        item.item_class == v.items[i].item_class,
        item.created_seq == v.items[i].created_seq,
        item.display_id == v.items[i].display_id,
        item.backend_kind == v.items[i].backend_kind,
        item.backend_key == v.items[i].backend_key,
        item.admitted(),
        container_ok(v, item.container_id),
    ensures
        (StoreView { items: v.items.update(i, item), ..v }).wf(),
        ids(v.items.update(i, item)) == ids(v.items),
        keys(v.items.update(i, item)) == keys(v.items),
{
    let now = v.items.update(i, item);
    assert(ids(now) =~= ids(v.items));
    assert(keys(now) =~= keys(v.items));
}

/// An Item may take another free Display ID and Backend identity.
pub proof fn lemma_rename_item(v: StoreView, i: int, item: ItemView)
    requires
        v.wf(),
        0 <= i < v.items.len(),
        item.id == v.items[i].id,
        item.item_class == v.items[i].item_class,
        item.created_seq == v.items[i].created_seq,
        item.container_id == v.items[i].container_id,
        name_free_for(v, item.id, item.display_id),
        identity_free(v, item.id, item.backend_kind, item.backend_key),
        item.admitted(),
    ensures
        (StoreView { items: v.items.update(i, item), ..v }).wf(),
        ids(v.items.update(i, item)) == ids(v.items),
        keys(v.items.update(i, item)) == keys(v.items),
{
    let now = v.items.update(i, item);
    assert(ids(now) =~= ids(v.items));
    assert(keys(now) =~= keys(v.items));
    assert forall|k: int| 0 <= k < v.items.len() && k != i implies (#[trigger] v.items[k]).id
        != item.id by {
        crate::tables::lemma_at(v, i);
        crate::tables::lemma_at(v, k);
    }
    assert forall|a: int, b: int|
        0 <= a < now.len() && 0 <= b < now.len() && a != b implies !same_identity(
        #[trigger] now[a],
        #[trigger] now[b],
    ) by {
        crate::tables::lemma_at(v, i);
        if a == i {
            crate::tables::lemma_at(v, b);
        }
        if b == i {
            crate::tables::lemma_at(v, a);
        }
    }
}

/// Where an Item belongs, everything before is not later and everything
/// behind is.
pub proof fn lemma_place(items: Seq<ItemView>, seq: int)
    requires
        crate::tables::created_in_order(items),
    ensures
        0 <= place(items, seq) <= items.len(),
        forall|i: int| 0 <= i < place(items, seq) ==> (#[trigger] items[i]).created_seq <= seq,
        forall|i: int|
            place(items, seq) <= i < items.len() ==> (#[trigger] items[i]).created_seq > seq,
    decreases items.len(),
{
    if items.len() == 0 || items.last().created_seq <= seq {
        if items.len() > 0 {
            assert(items.last() == items[items.len() - 1]);
        }
    } else {
        let rest = items.drop_last();
        assert forall|i: int, j: int| 0 <= i <= j < rest.len() implies (
        #[trigger] rest[i]).created_seq <= (#[trigger] rest[j]).created_seq by {
            assert(rest[i] == items[i] && rest[j] == items[j]);
        }
        lemma_place(rest, seq);
        assert forall|i: int| 0 <= i < place(items, seq) implies (
        #[trigger] items[i]).created_seq <= seq by {
            assert(rest[i] == items[i]);
        }
        assert forall|i: int| place(items, seq) <= i < items.len() implies (
        #[trigger] items[i]).created_seq > seq by {
            if i < rest.len() {
                assert(rest[i] == items[i]);
            } else {
                assert(items[i] == items.last());
            }
        }
    }
}

/// What is in a sequence is still in it with one element more.
pub proof fn lemma_insert_contains<A>(s: Seq<A>, at: int, a: A)
    requires
        0 <= at <= s.len(),
    ensures
        s.insert(at, a).contains(a),
        forall|x: A| s.contains(x) ==> #[trigger] s.insert(at, a).contains(x),
        forall|x: A| #[trigger] s.insert(at, a).contains(x) ==> x == a || s.contains(x),
{
    let t = s.insert(at, a);
    assert(t[at] == a);
    assert forall|x: A| s.contains(x) implies #[trigger] t.contains(x) by {
        let k = choose|k: int| 0 <= k < s.len() && s[k] == x;
        if k < at {
            assert(t[k] == x);
        } else {
            assert(t[k + 1] == x);
        }
    }
    assert forall|x: A| #[trigger] t.contains(x) implies x == a || s.contains(x) by {
        let k = choose|k: int| 0 <= k < t.len() && t[k] == x;
        if k < at {
            assert(s[k] == x);
        } else if k > at {
            assert(s[k - 1] == x);
        }
    }
}

/// The row at a place of the table with one Item more.
proof fn lemma_inserted_row(items: Seq<ItemView>, at: int, item: ItemView, i: int)
    requires
        0 <= at <= items.len(),
        0 <= i <= items.len(),
    ensures
        items.insert(at, item)[i] == (if i < at {
            items[i]
        } else if i == at {
            item
        } else {
            items[i - 1]
        }),
        items.insert(at, item).len() == items.len() + 1,
{
}

proof fn lemma_insert_ids(items: Seq<ItemView>, at: int, item: ItemView)
    requires
        0 <= at <= items.len(),
        crate::tables::ids_distinct(items),
        !ids(items).contains(item.id),
    ensures
        crate::tables::ids_distinct(items.insert(at, item)),
        forall|x: Seq<char>| ids(items).contains(x) ==> #[trigger] ids(
            items.insert(at, item),
        ).contains(x),
        forall|x: (Seq<char>, ItemClass)| keys(items).contains(x) ==> #[trigger] keys(
            items.insert(at, item),
        ).contains(x),
{
    let now = items.insert(at, item);
    assert(ids(now) =~= ids(items).insert(at, item.id));
    assert(keys(now) =~= keys(items).insert(at, (item.id, item.item_class)));
    lemma_insert_contains(ids(items), at, item.id);
    lemma_insert_contains(keys(items), at, (item.id, item.item_class));
    let a = ids(now);
    let b = ids(items);
    assert forall|i: int, j: int| 0 <= i < j < a.len() implies a[i] != a[j] by {
        if i == at {
            assert(a[j] == b[j - 1]);
            assert(b.contains(b[j - 1]));
        } else if j == at {
            assert(a[i] == b[i]);
            assert(b.contains(b[i]));
        } else {
            let p = if i < at {
                i
            } else {
                i - 1
            };
            let q = if j < at {
                j
            } else {
                j - 1
            };
            assert(a[i] == b[p] && a[j] == b[q]);
        }
    }
}

proof fn lemma_insert_order(items: Seq<ItemView>, item: ItemView)
    requires
        crate::tables::created_in_order(items),
    ensures
        0 <= place(items, item.created_seq) <= items.len(),
        crate::tables::created_in_order(items.insert(place(items, item.created_seq), item)),
{
    let at = place(items, item.created_seq);
    lemma_place(items, item.created_seq);
    let now = items.insert(at, item);
    assert forall|i: int, j: int| 0 <= i <= j < now.len() implies (#[trigger] now[i]).created_seq
        <= (#[trigger] now[j]).created_seq by {
        lemma_inserted_row(items, at, item, i);
        lemma_inserted_row(items, at, item, j);
    }
}

proof fn lemma_insert_rows(items: Seq<ItemView>, at: int, item: ItemView)
    requires
        0 <= at <= items.len(),
        crate::tables::all_admitted(items),
        crate::tables::contained_in_epics(items),
        item.admitted(),
        item.container_id is Some ==> keys(items).contains((item.container_id->0, ItemClass::Epic)),
        forall|x: (Seq<char>, ItemClass)| keys(items).contains(x) ==> #[trigger] keys(
            items.insert(at, item),
        ).contains(x),
    ensures
        crate::tables::all_admitted(items.insert(at, item)),
        crate::tables::contained_in_epics(items.insert(at, item)),
{
    let now = items.insert(at, item);
    assert forall|i: int| 0 <= i < now.len() implies (#[trigger] now[i]).admitted() by {
        lemma_inserted_row(items, at, item, i);
    }
    assert forall|i: int|
        0 <= i < now.len() && (#[trigger] now[i]).container_id is Some implies keys(now).contains(
        (now[i].container_id->0, ItemClass::Epic),
    ) by {
        lemma_inserted_row(items, at, item, i);
    }
}

proof fn lemma_insert_identities(v: StoreView, at: int, item: ItemView)
    requires
        0 <= at <= v.items.len(),
        crate::tables::identities_distinct(v.items),
        crate::tables::formers_ok(v.items, v.former_identities),
        !v.has(item.id),
        identity_free(v, item.id, item.backend_kind, item.backend_key),
        forall|x: Seq<char>| ids(v.items).contains(x) ==> #[trigger] ids(
            v.items.insert(at, item),
        ).contains(x),
    ensures
        crate::tables::identities_distinct(v.items.insert(at, item)),
        crate::tables::formers_ok(v.items.insert(at, item), v.former_identities),
{
    let now = v.items.insert(at, item);
    assert forall|k: int| 0 <= k < v.items.len() implies (#[trigger] v.items[k]).id != item.id by {
        assert(ids(v.items)[k] == v.items[k].id);
    }
    assert forall|i: int, j: int|
        0 <= i < now.len() && 0 <= j < now.len() && i != j implies !same_identity(
        #[trigger] now[i],
        #[trigger] now[j],
    ) by {
        lemma_inserted_row(v.items, at, item, i);
        lemma_inserted_row(v.items, at, item, j);
    }
    assert forall|i: int, j: int|
        0 <= i < now.len() && 0 <= j < v.former_identities.len() && (
        #[trigger] now[i]).backend_kind == Some((#[trigger] v.former_identities[j]).backend_kind)
            && now[i].backend_key == Some(
            v.former_identities[j].backend_key,
        ) implies now[i].id == v.former_identities[j].item_id by {
        lemma_inserted_row(v.items, at, item, i);
    }
}

proof fn lemma_insert_names(v: StoreView, at: int, item: ItemView)
    requires
        0 <= at <= v.items.len(),
        crate::tables::displays_distinct(v.items),
        crate::tables::aliases_apart(v.items, v.aliases),
        name_free(v, item.display_id),
    ensures
        crate::tables::displays_distinct(v.items.insert(at, item)),
        crate::tables::aliases_apart(v.items.insert(at, item), v.aliases),
{
    let now = v.items.insert(at, item);
    assert forall|i: int, j: int|
        0 <= i < now.len() && 0 <= j < now.len() && i != j implies folded(
        (#[trigger] now[i]).display_id,
    ) != folded((#[trigger] now[j]).display_id) by {
        lemma_inserted_row(v.items, at, item, i);
        lemma_inserted_row(v.items, at, item, j);
    }
    assert forall|i: int, j: int|
        0 <= i < now.len() && 0 <= j < v.aliases.len() implies folded(
        (#[trigger] now[i]).display_id,
    ) != folded((#[trigger] v.aliases[j]).value) by {
        lemma_inserted_row(v.items, at, item, i);
    }
}

/// A new Item that the store admits may join at its place.
pub proof fn lemma_insert_item(v: StoreView, item: ItemView)
    requires
        v.wf(),
        !v.has(item.id),
        name_free(v, item.display_id),
        identity_free(v, item.id, item.backend_kind, item.backend_key),
        item.admitted(),
        container_ok(v, item.container_id),
    ensures
        0 <= place(v.items, item.created_seq) <= v.items.len(),
        (StoreView {
            items: v.items.insert(place(v.items, item.created_seq), item),
            ..v
        }).wf(),
{
    let at = place(v.items, item.created_seq);
    lemma_insert_order(v.items, item);
    lemma_insert_ids(v.items, at, item);
    lemma_insert_rows(v.items, at, item);
    lemma_insert_identities(v, at, item);
    lemma_insert_names(v, at, item);
}

/// A new Alias of an Item may join under a free name.
pub proof fn lemma_push_alias(v: StoreView, alias: AliasView)
    requires
        v.wf(),
        v.has(alias.item_id),
        name_free(v, alias.value),
    ensures
        (StoreView { aliases: v.aliases.push(alias), ..v }).wf(),
{
}

/// An Alias may leave.
pub proof fn lemma_remove_alias(v: StoreView, i: int)
    requires
        v.wf(),
        0 <= i < v.aliases.len(),
    ensures
        (StoreView { aliases: v.aliases.remove(i), ..v }).wf(),
{
    let left = v.aliases.remove(i);
    assert forall|k: int| 0 <= k < left.len() implies #[trigger] left[k] == v.aliases[if k < i {
        k
    } else {
        k + 1
    }] by {}
}

/// A new Dependency between Items may join where it closes no cycle.
pub proof fn lemma_push_dependency(v: StoreView, dependency: DependencyView)
    requires
        v.wf(),
        v.has(dependency.blocking_id),
        v.has(dependency.blocked_id),
        !v.has_dependency(dependency.blocked_id, dependency.blocking_id),
        !connected(waits(v.dependencies), dependency.blocking_id, dependency.blocked_id),
    ensures
        waits(v.dependencies.push(dependency)) == waits(v.dependencies).push(
            (dependency.blocked_id, dependency.blocking_id),
        ),
        (StoreView { dependencies: v.dependencies.push(dependency), ..v }).wf(),
{
    let edge = (dependency.blocked_id, dependency.blocking_id);
    let more = v.dependencies.push(dependency);
    assert(waits(more) =~= waits(v.dependencies).push(edge));
    lemma_acyclic_push(waits(v.dependencies), edge);
    assert(waits(more).no_duplicates()) by {
        let w = waits(v.dependencies);
        assert forall|i: int, j: int| 0 <= i < j < waits(more).len() implies waits(more)[i]
            != waits(more)[j] by {
            if j == w.len() {
                assert(w.contains(w[i]));
            }
        }
    }
}

/// A Dependency may leave.
pub proof fn lemma_remove_dependency(v: StoreView, i: int)
    requires
        v.wf(),
        0 <= i < v.dependencies.len(),
    ensures
        waits(v.dependencies.remove(i)) == waits(v.dependencies).remove(i),
        (StoreView { dependencies: v.dependencies.remove(i), ..v }).wf(),
{
    let less = v.dependencies.remove(i);
    let w = waits(v.dependencies);
    assert(waits(less) =~= w.remove(i));
    assert forall|k: int| 0 <= k < waits(less).len() implies w.contains(
        #[trigger] waits(less)[k],
    ) by {
        if k < i {
            assert(w[k] == waits(less)[k]);
        } else {
            assert(w[k + 1] == waits(less)[k]);
        }
    }
    lemma_acyclic_subset(waits(less), w);
    assert(waits(less).no_duplicates());
}

proof fn lemma_blocker_le_trans(
    a: ExternalBlockerView,
    b: ExternalBlockerView,
    c: ExternalBlockerView,
)
    requires
        blocker_le(a, b),
        blocker_le(b, c),
    ensures
        blocker_le(a, c),
{
    if a.created_at == b.created_at && b.created_at == c.created_at {
        lemma_text_le_trans(a.id, b.id, c.id);
    } else {
        if a.created_at != b.created_at && b.created_at != c.created_at {
            lemma_text_le_trans(a.created_at, b.created_at, c.created_at);
            if a.created_at == c.created_at {
                lemma_text_le_antisym(a.created_at, b.created_at);
            }
        }
    }
}

proof fn lemma_blocker_le_total(a: ExternalBlockerView, b: ExternalBlockerView)
    ensures
        blocker_le(a, b) || blocker_le(b, a),
{
    lemma_text_le_total(a.id, b.id);
    lemma_text_le_total(a.created_at, b.created_at);
}

/// Where an External Blocker belongs, everything before does not come later,
/// and everything behind does not come earlier.
pub proof fn lemma_blocker_place(blockers: Seq<ExternalBlockerView>, blocker: ExternalBlockerView)
    requires
        forall|i: int, j: int|
            0 <= i < j < blockers.len() ==> blocker_le(
                #[trigger] blockers[i],
                #[trigger] blockers[j],
            ),
    ensures
        0 <= blocker_place(blockers, blocker) <= blockers.len(),
        forall|i: int|
            0 <= i < blocker_place(blockers, blocker) ==> blocker_le(
                #[trigger] blockers[i],
                blocker,
            ),
        forall|i: int|
            blocker_place(blockers, blocker) <= i < blockers.len() ==> blocker_le(
                blocker,
                #[trigger] blockers[i],
            ),
    decreases blockers.len(),
{
    if blockers.len() == 0 {
    } else if blocker_le(blockers.last(), blocker) {
        let last = blockers.len() - 1;
        assert forall|i: int| 0 <= i < blockers.len() implies blocker_le(
            #[trigger] blockers[i],
            blocker,
        ) by {
            if i < last {
                lemma_blocker_le_trans(blockers[i], blockers[last], blocker);
            }
        }
    } else {
        let rest = blockers.drop_last();
        assert forall|i: int, j: int| 0 <= i < j < rest.len() implies blocker_le(
            #[trigger] rest[i],
            #[trigger] rest[j],
        ) by {
            assert(rest[i] == blockers[i] && rest[j] == blockers[j]);
        }
        lemma_blocker_place(rest, blocker);
        lemma_blocker_le_total(blocker, blockers.last());
        let at = blocker_place(blockers, blocker);
        assert forall|i: int| 0 <= i < at implies blocker_le(#[trigger] blockers[i], blocker) by {
            assert(rest[i] == blockers[i]);
        }
        assert forall|i: int| at <= i < blockers.len() implies blocker_le(
            blocker,
            #[trigger] blockers[i],
        ) by {
            if i < rest.len() {
                assert(rest[i] == blockers[i]);
            }
        }
    }
}

/// A new External Blocker of an Item may join at its place.
pub proof fn lemma_insert_blocker(v: StoreView, blocker: ExternalBlockerView)
    requires
        v.wf(),
        v.has(blocker.item_id),
    ensures
        0 <= blocker_place(v.external_blockers, blocker) <= v.external_blockers.len(),
        (StoreView {
            external_blockers: v.external_blockers.insert(
                blocker_place(v.external_blockers, blocker),
                blocker,
            ),
            ..v
        }).wf(),
{
    let at = blocker_place(v.external_blockers, blocker);
    lemma_blocker_place(v.external_blockers, blocker);
    let now = v.external_blockers.insert(at, blocker);
    assert forall|i: int| 0 <= i < now.len() implies #[trigger] now[i] == (if i < at {
        v.external_blockers[i]
    } else if i == at {
        blocker
    } else {
        v.external_blockers[i - 1]
    }) by {}
}

/// Where a Mutation belongs, everything before is not later and everything
/// behind is.
pub proof fn lemma_mutation_place(mutations: Seq<MutationView>, sequence: int)
    requires
        forall|i: int, j: int|
            0 <= i < j < mutations.len() ==> (#[trigger] mutations[i]).sequence < (
            #[trigger] mutations[j]).sequence,
    ensures
        0 <= mutation_place(mutations, sequence) <= mutations.len(),
        forall|i: int|
            0 <= i < mutation_place(mutations, sequence) ==> (#[trigger] mutations[i]).sequence
                <= sequence,
        forall|i: int|
            mutation_place(mutations, sequence) <= i < mutations.len() ==> (
            #[trigger] mutations[i]).sequence > sequence,
    decreases mutations.len(),
{
    if mutations.len() == 0 || mutations.last().sequence <= sequence {
        if mutations.len() > 0 {
            let last = mutations.len() - 1;
            assert(mutations.last() == mutations[last]);
        }
    } else {
        let rest = mutations.drop_last();
        assert forall|i: int, j: int| 0 <= i < j < rest.len() implies (#[trigger] rest[i]).sequence
            < (#[trigger] rest[j]).sequence by {
            assert(rest[i] == mutations[i] && rest[j] == mutations[j]);
        }
        lemma_mutation_place(rest, sequence);
        let at = mutation_place(mutations, sequence);
        assert forall|i: int| 0 <= i < at implies (#[trigger] mutations[i]).sequence
            <= sequence by {
            assert(rest[i] == mutations[i]);
        }
        assert forall|i: int| at <= i < mutations.len() implies (#[trigger] mutations[i]).sequence
            > sequence by {
            if i < rest.len() {
                assert(rest[i] == mutations[i]);
            }
        }
    }
}

/// A new Mutation of an Item may join under a free sequence.
pub proof fn lemma_insert_mutation(v: StoreView, mutation: MutationView)
    requires
        v.wf(),
        keys(v.items).contains((mutation.item_id, mutation.item_class)),
        mutation.admitted(),
        !v.has_mutation(mutation.sequence),
    ensures
        0 <= mutation_place(v.mutations, mutation.sequence) <= v.mutations.len(),
        (StoreView {
            mutations: v.mutations.insert(
                mutation_place(v.mutations, mutation.sequence),
                mutation,
            ),
            ..v
        }).wf(),
{
    let at = mutation_place(v.mutations, mutation.sequence);
    lemma_mutation_place(v.mutations, mutation.sequence);
    let now = v.mutations.insert(at, mutation);
    assert forall|i: int| 0 <= i < now.len() implies #[trigger] now[i] == (if i < at {
        v.mutations[i]
    } else if i == at {
        mutation
    } else {
        v.mutations[i - 1]
    }) by {}
    assert forall|i: int, j: int| 0 <= i < j < now.len() implies (#[trigger] now[i]).sequence < (
    #[trigger] now[j]).sequence by {
        if i == at {
            assert(v.mutations[j - 1].sequence > mutation.sequence);
        } else if j == at {
            assert(v.mutations[i].sequence <= mutation.sequence);
            assert(v.mutations[i].sequence != mutation.sequence);
        }
    }
}

/// A Mutation may change in its state, evidence and time.
pub proof fn lemma_put_mutation(v: StoreView, i: int, mutation: MutationView)
    requires
        v.wf(),
        0 <= i < v.mutations.len(),
        mutation.sequence == v.mutations[i].sequence,
        mutation.item_id == v.mutations[i].item_id,
        mutation.item_class == v.mutations[i].item_class,
        mutation.admitted(),
    ensures
        (StoreView { mutations: v.mutations.update(i, mutation), ..v }).wf(),
{
}

/// The Backend identity that an Item holds may be recorded as a former one.
pub proof fn lemma_push_former(v: StoreView, former: FormerIdentityView)
    requires
        v.wf(),
        v.has(former.item_id),
        forall|i: int|
            0 <= i < v.items.len() && (#[trigger] v.items[i]).backend_kind == Some(
                former.backend_kind,
            ) && v.items[i].backend_key == Some(former.backend_key) ==> v.items[i].id
                == former.item_id,
    ensures
        (StoreView { former_identities: v.former_identities.push(former), ..v }).wf(),
{
}

/// A Ticket may join the Plan.
pub proof fn lemma_push_plan(v: StoreView, id: Seq<char>)
    requires
        v.wf(),
        keys(v.items).contains((id, ItemClass::Ticket)),
        !v.plan.contains(id),
    ensures
        (StoreView { plan: v.plan.push(id), ..v }).wf(),
{
    let now = v.plan.push(id);
    assert forall|i: int, j: int| 0 <= i < j < now.len() implies now[i] != now[j] by {
        if j == v.plan.len() {
            assert(v.plan.contains(v.plan[i]));
        }
    }
}

/// An Item may leave the Plan.
pub proof fn lemma_remove_plan(v: StoreView, i: int)
    requires
        v.wf(),
        0 <= i < v.plan.len(),
    ensures
        (StoreView { plan: v.plan.remove(i), ..v }).wf(),
{
    let now = v.plan.remove(i);
    assert forall|k: int| 0 <= k < now.len() implies #[trigger] now[k] == (if k < i {
        v.plan[k]
    } else {
        v.plan[k + 1]
    }) by {}
}

} // verus!
