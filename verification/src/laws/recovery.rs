//! Finding the Store that a repository lost, and taking one over.

use vstd::prelude::*;

use crate::association::{is_store_id, ManifestView, Refusal};
use crate::paths::{last_name, same_place};
use crate::recovery::{
    complete, inspected, let_go, on_list, ranked, untouched, vacant_backups, vacant_image,
    BackupFactView, DatabaseImageView, FactView, FormerView, ShortlistedView, StoreEntryView,
    TableFactView, Wanted,
};
use crate::repository::open::{admitted, OpenFault};
use crate::select::lemma_filter_contains;

verus! {

/// A database is sound exactly where it is let in, has a schema, its quick
/// check says so, and no foreign key dangles.
pub proof fn law_which_database_is_sound(image: DatabaseImageView)
    ensures
        (inspected(image) is Ok) == (admitted(image.application_id, image.version) is Ok
            && image.version->Ok_0 != 0 && image.quick_check == Ok::<Seq<char>, Seq<char>>("ok"@)
            && image.dangling == Ok::<bool, Seq<char>>(false)),
        admitted(image.application_id, image.version) is Err ==> inspected(image) is Err,
{
}

proof fn lemma_untouched(tables: Seq<TableFactView>, at: int)
    requires
        0 <= at <= tables.len(),
    ensures
        untouched(tables, at) == Ok::<bool, OpenFault>(true) <==> forall|i: int|
            at <= i < tables.len() ==> (#[trigger] tables[i]).occupied == Ok::<bool, Seq<char>>(
                false,
            ),
        untouched(tables, at) == Ok::<bool, OpenFault>(false) ==> exists|i: int|
            at <= i < tables.len() && (#[trigger] tables[i]).occupied == Ok::<bool, Seq<char>>(true),
    decreases tables.len() - at,
{
    if at < tables.len() {
        lemma_untouched(tables, at + 1);
        assert(tables[at].occupied == tables[at].occupied);
    }
}

/// A database is vacant exactly where it is sound, its three versions agree,
/// every table of its version is there and none holds more than a fresh store
/// does. It is found to be in use only where some table does.
pub proof fn law_when_a_database_is_vacant(image: DatabaseImageView)
    ensures
        vacant_image(image) == Ok::<bool, OpenFault>(true) <==> {
            &&& inspected(image) is Ok
            &&& image.user_version == image.version
            &&& image.recorded == image.version
            &&& image.tables is Ok
            &&& complete(image.version->Ok_0 as int, image.tables->Ok_0)
            &&& forall|i: int|
                0 <= i < image.tables->Ok_0.len() ==> (
                #[trigger] image.tables->Ok_0[i]).occupied == Ok::<bool, Seq<char>>(false)
        },
        vacant_image(image) == Ok::<bool, OpenFault>(false) ==> exists|i: int|
            0 <= i < image.tables->Ok_0.len() && (#[trigger] image.tables->Ok_0[i]).occupied
                == Ok::<bool, Seq<char>>(true),
{
    if image.tables is Ok {
        lemma_untouched(image.tables->Ok_0, 0);
    }
}

/// Backups are vacant exactly where each is a file and a vacant database.
pub proof fn law_when_backups_are_vacant(backups: Seq<BackupFactView>, at: int)
    requires
        0 <= at <= backups.len(),
    ensures
        vacant_backups(backups, at) == Ok::<bool, OpenFault>(true) <==> forall|i: int|
            at <= i < backups.len() ==> (#[trigger] backups[i]).is_file == Ok::<bool, Refusal>(true)
                && backups[i].vacant == Ok::<bool, OpenFault>(true),
        vacant_backups(backups, at) == Ok::<bool, OpenFault>(false) ==> exists|i: int|
            at <= i < backups.len() && ((#[trigger] backups[i]).is_file == Ok::<bool, Refusal>(
                false,
            ) || backups[i].vacant == Ok::<bool, OpenFault>(false)),
    decreases backups.len() - at,
{
    if at < backups.len() {
        law_when_backups_are_vacant(backups, at + 1);
        assert(backups[at].is_file == backups[at].is_file);
    }
}

/// A Store is let go of exactly by the repository that asks, by one whose
/// configuration was read and does not name the Store, and by one that was seen
/// to be gone from a directory that was listed.
pub proof fn law_when_a_store_is_let_go(
    manifest: ManifestView,
    common: Seq<char>,
    former: FormerView,
)
    ensures
        (let_go(manifest, common, former) is Ok) == {
            ||| same_place(manifest.git_common_dir, common)
            ||| (former matches FormerView::Directory(Some(pointers)) && !(exists|i: int|
                0 <= i < pointers.len() && #[trigger] pointers[i] == manifest.store_id))
            ||| (former matches FormerView::Absent(Some(listed)) && (listed.len() == 0 || (
            last_name(manifest.git_common_dir) matches Some(name) && !(exists|i: int|
                0 <= i < listed.len() && #[trigger] listed[i] == name))))
        },
        let_go(manifest, common, former) == Err::<(), Refusal>(Refusal::AssociationMismatch) ==> (
        former matches FormerView::Directory(Some(pointers)) && pointers.contains(
            manifest.store_id,
        )),
{
}

proof fn lemma_evidence(wanted: Wanted, manifest: ManifestView, fact: FactView)
    ensures
        wanted.evidence(manifest).contains(fact) == match fact {
            FactView::CurrentPath(path) => path == wanted.common && same_place(
                manifest.git_common_dir,
                wanted.common,
            ),
            FactView::HistoricalPath(path) => manifest.previous_git_common_dirs.contains(path)
                && same_place(path, wanted.common),
            FactView::RemoteUrl(url) => manifest.git_remote_urls.contains(url)
                && wanted.urls.contains(url),
            _ => false,
        },
{
    let current = if same_place(manifest.git_common_dir, wanted.common) {
        seq![FactView::CurrentPath(wanted.common)]
    } else {
        Seq::<FactView>::empty()
    };
    let paths = manifest.previous_git_common_dirs.filter(wanted.historical());
    let urls = manifest.git_remote_urls.filter(wanted.shared());
    let told = paths.map_values(|path: Seq<char>| FactView::HistoricalPath(path));
    let shared = urls.map_values(|url: Seq<char>| FactView::RemoteUrl(url));
    let all = wanted.evidence(manifest);
    assert(all == current + told + shared);
    lemma_filter_contains(manifest.previous_git_common_dirs, wanted.historical());
    lemma_filter_contains(manifest.git_remote_urls, wanted.shared());
    if all.contains(fact) {
        let k = choose|k: int| 0 <= k < all.len() && all[k] == fact;
        if k < current.len() {
            assert(current[k] == fact);
        } else if k < current.len() + told.len() {
            let j = k - current.len();
            assert(told[j] == fact);
            assert((wanted.historical())(paths[j]));
        } else {
            let j = k - current.len() - told.len();
            assert(shared[j] == fact);
            assert((wanted.shared())(urls[j]));
        }
    }
    match fact {
        FactView::CurrentPath(path) => {
            if path == wanted.common && same_place(manifest.git_common_dir, wanted.common) {
                assert(all[0] == fact);
            }
        },
        FactView::HistoricalPath(path) => {
            if manifest.previous_git_common_dirs.contains(path) && same_place(path, wanted.common) {
                let i = choose|i: int|
                    0 <= i < manifest.previous_git_common_dirs.len()
                        && manifest.previous_git_common_dirs[i] == path;
                assert((wanted.historical())(manifest.previous_git_common_dirs[i]));
                assert(paths.contains(path));
                let j = choose|j: int| 0 <= j < paths.len() && paths[j] == path;
                assert(all[current.len() + j] == fact);
            }
        },
        FactView::RemoteUrl(url) => {
            if manifest.git_remote_urls.contains(url) && wanted.urls.contains(url) {
                let i = choose|i: int|
                    0 <= i < manifest.git_remote_urls.len() && manifest.git_remote_urls[i] == url;
                assert((wanted.shared())(manifest.git_remote_urls[i]));
                assert(urls.contains(url));
                let j = choose|j: int| 0 <= j < urls.len() && urls[j] == url;
                assert(all[current.len() + told.len() + j] == fact);
            }
        },
        _ => {},
    }
}

/// What speaks for a Store: that a pointer names it; that its manifest names
/// the repository, or once did; that it names a remote that the repository has.
/// Nothing else does.
pub proof fn law_what_speaks_for_a_store(wanted: Wanted, entry: StoreEntryView, fact: FactView)
    ensures
        wanted.facts(entry).contains(fact) == match fact {
            FactView::Referenced => wanted.pointers.contains(entry.name),
            FactView::CurrentPath(path) => entry.manifest is Ok && path == wanted.common
                && same_place(entry.manifest->Ok_0.git_common_dir, wanted.common),
            FactView::HistoricalPath(path) => entry.manifest is Ok
                && entry.manifest->Ok_0.previous_git_common_dirs.contains(path) && same_place(
                path,
                wanted.common,
            ),
            FactView::RemoteUrl(url) => entry.manifest is Ok
                && entry.manifest->Ok_0.git_remote_urls.contains(url) && wanted.urls.contains(url),
            FactView::MissingStore => false,
        },
{
    let referenced = if wanted.pointers.contains(entry.name) {
        seq![FactView::Referenced]
    } else {
        Seq::<FactView>::empty()
    };
    let all = wanted.facts(entry);
    match entry.manifest {
        Ok(manifest) => {
            lemma_evidence(wanted, manifest, fact);
            let told = wanted.evidence(manifest);
            assert(all == referenced + told);
            if all.contains(fact) {
                let k = choose|k: int| 0 <= k < all.len() && all[k] == fact;
                if k < referenced.len() {
                    assert(referenced[k] == fact);
                } else {
                    assert(told[k - referenced.len()] == fact);
                    assert(told.contains(fact));
                }
            }
            if told.contains(fact) {
                let k = choose|k: int| 0 <= k < told.len() && told[k] == fact;
                assert(all[referenced.len() + k] == fact);
            }
            if wanted.pointers.contains(entry.name) {
                assert(all[0] == FactView::Referenced);
            }
        },
        Err(_) => {
            assert(all == referenced);
            if wanted.pointers.contains(entry.name) {
                assert(all[0] == FactView::Referenced);
            }
        },
    }
}

/// How strongly a fact speaks, the strongest first.
pub open spec fn strength(fact: FactView) -> int {
    match fact {
        FactView::Referenced => 0,
        FactView::MissingStore => 0,
        FactView::CurrentPath(_) => 1,
        FactView::HistoricalPath(_) => 2,
        FactView::RemoteUrl(_) => 3,
    }
}

/// A Store ranks by the strongest fact that speaks for it, and one that none
/// speaks for behind all of these.
pub proof fn law_a_store_ranks_by_its_strongest_fact(wanted: Wanted, entry: StoreEntryView)
    ensures
        wanted.facts(entry).len() > 0 ==> exists|k: int|
            0 <= k < wanted.facts(entry).len() && strength(#[trigger] wanted.facts(entry)[k])
                == wanted.rank(entry),
        forall|k: int|
            0 <= k < wanted.facts(entry).len() ==> wanted.rank(entry) <= strength(
                #[trigger] wanted.facts(entry)[k],
            ),
        wanted.facts(entry).len() == 0 ==> wanted.rank(entry) > 3,
{
    let all = wanted.facts(entry);
    assert forall|k: int| 0 <= k < all.len() implies wanted.rank(entry) <= strength(
        #[trigger] all[k],
    ) by {
        assert(all.contains(all[k]));
        law_what_speaks_for_a_store(wanted, entry, all[k]);
        if entry.manifest is Ok {
            let m = entry.manifest->Ok_0;
            lemma_filter_contains(m.previous_git_common_dirs, wanted.historical());
            lemma_filter_contains(m.git_remote_urls, wanted.shared());
            match all[k] {
                FactView::HistoricalPath(path) => {
                    let i = choose|i: int|
                        0 <= i < m.previous_git_common_dirs.len() && m.previous_git_common_dirs[i]
                            == path;
                    assert((wanted.historical())(m.previous_git_common_dirs[i]));
                    assert(m.previous_git_common_dirs.filter(wanted.historical()).contains(path));
                },
                FactView::RemoteUrl(url) => {
                    let i = choose|i: int|
                        0 <= i < m.git_remote_urls.len() && m.git_remote_urls[i] == url;
                    assert((wanted.shared())(m.git_remote_urls[i]));
                    assert(m.git_remote_urls.filter(wanted.shared()).contains(url));
                },
                _ => {},
            }
        }
    }
    if wanted.rank(entry) <= 3 {
        let fact = if wanted.pointers.contains(entry.name) {
            FactView::Referenced
        } else {
            let m = entry.manifest->Ok_0;
            lemma_filter_contains(m.previous_git_common_dirs, wanted.historical());
            lemma_filter_contains(m.git_remote_urls, wanted.shared());
            if same_place(m.git_common_dir, wanted.common) {
                FactView::CurrentPath(wanted.common)
            } else if m.previous_git_common_dirs.filter(wanted.historical()).len() > 0 {
                let path = m.previous_git_common_dirs.filter(wanted.historical())[0];
                assert((wanted.historical())(path));
                FactView::HistoricalPath(path)
            } else {
                let url = m.git_remote_urls.filter(wanted.shared())[0];
                assert((wanted.shared())(url));
                FactView::RemoteUrl(url)
            }
        };
        law_what_speaks_for_a_store(wanted, entry, fact);
        assert(all.contains(fact));
        let k = choose|k: int| 0 <= k < all.len() && all[k] == fact;
        assert(strength(all[k]) == wanted.rank(entry));
    } else if all.len() > 0 {
        assert(all.contains(all[0]));
        law_what_speaks_for_a_store(wanted, entry, all[0]);
        assert(wanted.rank(entry) <= strength(all[0]));
    }
}

/// Whether an entry of the directory comes into question.
pub open spec fn in_question(wanted: Wanted, entry: StoreEntryView) -> bool {
    entry.name != ".migrations"@ && (wanted.facts(entry).len() > 0 || entry.manifest is Err)
}

/// Whether a listed Store is an entry of the directory that comes into
/// question, with what speaks for it.
pub open spec fn is_entry(
    wanted: Wanted,
    entries: Seq<StoreEntryView>,
    listed: ShortlistedView,
) -> bool {
    exists|i: int|
        0 <= i < entries.len() && in_question(wanted, #[trigger] entries[i]) && listed.id
            == entries[i].name && listed.facts == wanted.facts(entries[i]) && listed.manifest
            == entries[i].manifest && listed.rank == wanted.rank(entries[i])
}

/// Whether an entry of the directory is on the list with its facts.
pub open spec fn is_listed(
    wanted: Wanted,
    list: Seq<ShortlistedView>,
    entry: StoreEntryView,
) -> bool {
    exists|k: int|
        0 <= k < list.len() && (#[trigger] list[k]).id == entry.name && list[k].facts
            == wanted.facts(entry) && list[k].manifest == entry.manifest && list[k].rank
            == wanted.rank(entry)
}

proof fn lemma_from_entries(wanted: Wanted, entries: Seq<StoreEntryView>)
    ensures
        forall|k: int|
            0 <= k < wanted.from_entries(entries).len() ==> is_entry(
                wanted,
                entries,
                #[trigger] wanted.from_entries(entries)[k],
            ),
        forall|i: int|
            0 <= i < entries.len() && in_question(wanted, #[trigger] entries[i]) ==> is_listed(
                wanted,
                wanted.from_entries(entries),
                entries[i],
            ),
    decreases entries.len(),
{
    if entries.len() > 0 {
        let rest = entries.drop_last();
        let before = wanted.from_entries(rest);
        let all = wanted.from_entries(entries);
        lemma_from_entries(wanted, rest);
        assert(entries[entries.len() - 1] == entries.last());
        assert forall|k: int| 0 <= k < all.len() implies is_entry(
            wanted,
            entries,
            #[trigger] all[k],
        ) by {
            if k < before.len() {
                assert(all[k] == before[k]);
                assert(is_entry(wanted, rest, before[k]));
                let i = choose|i: int|
                    0 <= i < rest.len() && in_question(wanted, #[trigger] rest[i]) && before[k].id
                        == rest[i].name && before[k].facts == wanted.facts(rest[i])
                        && before[k].manifest == rest[i].manifest && before[k].rank == wanted.rank(
                        rest[i],
                    );
                assert(entries[i] == rest[i]);
            } else {
                assert(in_question(wanted, entries[entries.len() - 1]));
            }
        }
        assert forall|i: int|
            0 <= i < entries.len() && in_question(
                wanted,
                #[trigger] entries[i],
            ) implies is_listed(wanted, all, entries[i]) by {
            if i < rest.len() {
                assert(rest[i] == entries[i]);
                assert(is_listed(wanted, before, rest[i]));
                let k = choose|k: int|
                    0 <= k < before.len() && (#[trigger] before[k]).id == rest[i].name
                        && before[k].facts == wanted.facts(rest[i]) && before[k].manifest
                        == rest[i].manifest && before[k].rank == wanted.rank(rest[i]);
                assert(all[k] == before[k]);
            } else {
                assert(all[before.len() as int].id == entries[i].name);
            }
        }
    }
}

/// Whether a listed Store is one that a pointer names and that is not there.
pub open spec fn is_missing(wanted: Wanted, listed: ShortlistedView) -> bool {
    &&& wanted.pointers.contains(listed.id)
    &&& is_store_id(listed.id)
    &&& listed.rank == 0
    &&& listed.manifest is Err
    &&& listed.facts.contains(FactView::Referenced)
    &&& listed.facts.contains(FactView::MissingStore)
}

proof fn lemma_with_missing(wanted: Wanted, list: Seq<ShortlistedView>, count: int)
    requires
        0 <= count <= wanted.pointers.len(),
    ensures
        ({
            let all = wanted.with_missing(list, count);
            &&& list.len() <= all.len()
            &&& forall|k: int| 0 <= k < list.len() ==> #[trigger] all[k] == list[k]
            &&& forall|k: int|
                list.len() <= k < all.len() ==> is_missing(wanted, #[trigger] all[k]) && !on_list(
                    list,
                    all[k].id,
                )
            &&& forall|j: int|
                0 <= j < count && is_store_id(#[trigger] wanted.pointers[j]) ==> on_list(
                    all,
                    wanted.pointers[j],
                )
        }),
    decreases count,
{
    if count > 0 {
        lemma_with_missing(wanted, list, count - 1);
        let before = wanted.with_missing(list, count - 1);
        let all = wanted.with_missing(list, count);
        let id = wanted.pointers[count - 1];
        if is_store_id(id) && !on_list(before, id) {
            let one = crate::recovery::missing_store(id);
            assert(all[before.len() as int] == one);
            assert(one.facts[0] == FactView::Referenced && one.facts[1] == FactView::MissingStore);
            assert(is_missing(wanted, one));
            if on_list(list, id) {
                let k = choose|k: int| 0 <= k < list.len() && (#[trigger] list[k]).id == id;
                assert(before[k].id == id);
            }
        }
        assert forall|j: int|
            0 <= j < count && is_store_id(#[trigger] wanted.pointers[j]) implies on_list(
            all,
            wanted.pointers[j],
        ) by {
            if on_list(before, wanted.pointers[j]) {
                let k = choose|k: int|
                    0 <= k < before.len() && (#[trigger] before[k]).id == wanted.pointers[j];
                assert(all[k].id == wanted.pointers[j]);
            } else {
                assert(all[before.len() as int].id == wanted.pointers[j]);
            }
        }
    }
}

/// Shortlisted are the entries of the directory that something speaks for or
/// whose manifest is no good, with what speaks for them, and the Stores that
/// pointers name and that are not there. No other Store is.
pub proof fn law_which_stores_are_shortlisted(wanted: Wanted, entries: Seq<StoreEntryView>)
    ensures
        forall|i: int|
            0 <= i < entries.len() && in_question(wanted, #[trigger] entries[i]) ==> is_listed(
                wanted,
                wanted.shortlist(entries),
                entries[i],
            ),
        forall|j: int|
            0 <= j < wanted.pointers.len() && is_store_id(#[trigger] wanted.pointers[j]) ==> on_list(
                wanted.shortlist(entries),
                wanted.pointers[j],
            ),
        forall|k: int|
            0 <= k < wanted.shortlist(entries).len() ==> is_entry(
                wanted,
                entries,
                #[trigger] wanted.shortlist(entries)[k],
            ) || is_missing(wanted, wanted.shortlist(entries)[k]),
{
    let found = wanted.from_entries(entries);
    let all = wanted.shortlist(entries);
    lemma_from_entries(wanted, entries);
    lemma_with_missing(wanted, found, wanted.pointers.len() as int);
    assert forall|i: int|
        0 <= i < entries.len() && in_question(wanted, #[trigger] entries[i]) implies is_listed(
        wanted,
        all,
        entries[i],
    ) by {
        assert(is_listed(wanted, found, entries[i]));
        let k = choose|k: int|
            0 <= k < found.len() && (#[trigger] found[k]).id == entries[i].name && found[k].facts
                == wanted.facts(entries[i]) && found[k].manifest == entries[i].manifest
                && found[k].rank == wanted.rank(entries[i]);
        assert(all[k] == found[k]);
    }
    assert forall|k: int| 0 <= k < all.len() implies is_entry(
        wanted,
        entries,
        #[trigger] all[k],
    ) || is_missing(wanted, all[k]) by {
        if k < found.len() {
            assert(all[k] == found[k]);
            assert(is_entry(wanted, entries, found[k]));
        }
    }
}

/// A Store of a better rank comes before one of a worse, and within a rank the
/// one with the lesser ID.
pub proof fn law_how_the_shortlist_is_ordered(a: ShortlistedView, b: ShortlistedView)
    ensures
        a.rank < b.rank ==> ranked()(a, b) && !ranked()(b, a),
        a.rank == b.rank ==> ranked()(a, b) == crate::text::text_le(a.id, b.id),
{
}

} // verus!
