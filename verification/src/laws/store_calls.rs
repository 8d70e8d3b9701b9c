//! What the calls about Stores as files answer.

use vstd::prelude::*;

use crate::backup::{backup_named, is_backup_name, prune, BackupError, BACKUPS_KEPT};
use crate::association::{locked, pointer, stores_root, Lock, StoreId};
use crate::initialize::{Initialized, Reply, Setup};
use crate::laws::recovery::{
    in_question, is_entry, is_missing, law_when_backups_are_vacant,
    law_which_stores_are_shortlisted,
};
use crate::laws::relocation::{
    law_how_a_migration_cleans_up, law_how_a_migration_copies, law_what_a_migration_keeps,
    leads_to_cleanup, leads_to_copy,
};
use crate::laws::stores::{
    is_made_of, law_data_is_backed_up_first, law_how_an_initialization_goes_on,
    law_what_a_backup_is_called, law_what_a_prune_leaves, law_when_a_migration_is_recorded,
};
use crate::migrations::{
    apply_all, migration, plan, ApplyError, ForeignKeys, Migration, Outcome, Plan, Schema, Task,
    Upgrade, MAX_KNOWN_VERSION,
};
use crate::paths::spread;
use crate::repository::open::open_existing;
use crate::recovery::{
    availability, discover, refuse_recovery, vacant, BackupFact, shortlist_of, Shortlisted,
    StoreEntry, StoreEntryView, Wanted,
};
use crate::relocation::cutover::{answers, Cutover};
use crate::relocation::source::{
    entry_files, has_moved, inventoried, refuse_links, FileIdentity, Held, SourceEntry,
};

verus! {

/// A name is taken for a backup's exactly where it is made as one.
pub proof fn law_recognising_a_backup(name: &str, r: bool)
    requires
        call_ensures(is_backup_name, (name,), r),
    ensures
        r == (exists|stamp: Seq<char>, number: Seq<char>| #[trigger]
            is_made_of(name@, stamp, number)),
{
    law_what_a_backup_is_called(name@);
}

/// A prune names only backups of the directory and never the one to keep; and
/// none where there are not more than may be.
pub proof fn law_pruning(files: &Vec<String>, keep: &str, r: Vec<String>)
    requires
        call_ensures(prune, (files, keep), r),
    ensures
        forall|i: int|
            0 <= i < r@.len() ==> backup_named((#[trigger] r@[i])@) && r@[i]@ != keep@ && spread(
                files@,
            ).contains(r@[i]@),
        files@.len() < BACKUPS_KEPT ==> r@.len() == 0,
{
    let all = spread(files@);
    law_what_a_prune_leaves(all, keep@);
    crate::backup::law_prune_deletes_old_backups_only(all, keep@);
    crate::select::lemma_filter_contains(all, crate::backup::expendable(keep@));
    let gone = crate::backup::pruned(all, keep@);
    assert forall|i: int| 0 <= i < r@.len() implies backup_named((#[trigger] r@[i])@) && r@[i]@
        != keep@ && all.contains(r@[i]@) by {
        assert(spread(r@)[i] == r@[i]@);
        assert(gone[i] == r@[i]@);
    }
}

/// A migration knows the version that it leads to; enforcement of foreign keys
/// is off for those that rebuild a table, and on for all others.
pub proof fn law_looking_up_a_migration(version: u32, r: Migration)
    requires
        1 <= version <= MAX_KNOWN_VERSION,
        call_ensures(migration, (version,), r),
    ensures
        r.version == version,
        (r.foreign_keys == ForeignKeys::Off) == set![5u32, 6u32, 8u32, 9u32, 10u32, 11u32].contains(
            version,
        ),
{
}

/// What a store lacks are the versions above its own, one after another up to
/// the newest; it is backed up first where it has a schema and lacks one. An
/// upgrade begins with the first of that, and a store that is newer is refused.
pub proof fn law_planning_an_upgrade(
    recorded: i64,
    planned: Result<Plan, ApplyError>,
    begun: Result<Upgrade, ApplyError>,
)
    requires
        call_ensures(plan, (recorded,), planned),
        call_ensures(Upgrade::begin, (recorded,), begun),
    ensures
        (planned is Err) == (recorded > MAX_KNOWN_VERSION),
        (begun is Err) == (recorded > MAX_KNOWN_VERSION),
        planned is Ok ==> {
            let pending = planned->Ok_0.pending@;
            &&& planned->Ok_0.backup == (recorded >= 1 && pending.len() > 0)
            &&& forall|v: u32| #[trigger]
                pending.contains(v) == (1 <= v <= MAX_KNOWN_VERSION && recorded < v)
            &&& forall|a: int, b: int|
                0 <= a < b < pending.len() ==> (#[trigger] pending[a]) < (#[trigger] pending[b])
        },
        planned is Ok && begun is Ok ==> begun->Ok_0.task == (if planned->Ok_0.backup {
            Task::Backup
        } else if planned->Ok_0.pending@.len() > 0 {
            Task::Run(planned->Ok_0.pending@[0])
        } else {
            Task::Complete
        }),
{
    if planned is Ok {
        let pending = planned->Ok_0.pending@;
        let base: int = if recorded < 0 {
            0
        } else {
            recorded as int
        };
        assert forall|v: u32| #[trigger] pending.contains(v) == (1 <= v <= MAX_KNOWN_VERSION
            && recorded < v) by {
            if pending.contains(v) {
                let k = choose|k: int| 0 <= k < pending.len() && pending[k] == v;
            }
            if 1 <= v <= MAX_KNOWN_VERSION && recorded < v {
                let k = v - 1 - base;
                assert(0 <= k < pending.len());
                assert(pending[k] == v);
            }
        }
    }
}

/// An upgrade goes on only behind its backup, and then with the first version
/// that the store lacks.
pub proof fn law_going_on_after_a_backup(
    upgrade: Upgrade,
    backup: Result<(), BackupError>,
    r: Result<Upgrade, ApplyError>,
)
    requires
        upgrade.wf(),
        upgrade.task == Task::Backup,
        call_ensures(Upgrade::backed, (upgrade, backup), r),
    ensures
        (r is Ok) == (backup is Ok),
        r is Ok ==> r->Ok_0.recorded == upgrade.recorded,
        r is Ok && 0 <= upgrade.recorded < MAX_KNOWN_VERSION ==> r->Ok_0.task == Task::Run(
            (upgrade.recorded + 1) as u32,
        ),
{
}

/// After a script an upgrade goes on with the next version, up to the newest; a
/// script that failed ends it and leaves the record as it was.
pub proof fn law_going_on_after_a_script(
    upgrade: Upgrade,
    schema: &mut Schema,
    now: &str,
    outcome: &Outcome,
    r: Result<Upgrade, ApplyError>,
)
    requires
        upgrade.wf(),
        upgrade.task is Run,
        call_ensures(Upgrade::ran, (upgrade, schema, now, outcome), r),
    ensures
        ({
            let version = upgrade.task->Run_0;
            &&& r is Err ==> final(schema)@ == old(schema)@
            &&& r is Ok && version < MAX_KNOWN_VERSION ==> r->Ok_0.task == Task::Run(
                (version + 1) as u32,
            )
            &&& r is Ok && version == MAX_KNOWN_VERSION ==> r->Ok_0.task == Task::Complete
            &&& version > old(schema)@.version() && outcome.script is Err ==> r is Err
            &&& r is Ok && version > old(schema)@.version() ==> final(schema)@.applied == old(
                schema,
            )@.applied.push((version as int, now@))
        }),
{
    let version = upgrade.task->Run_0 as int;
    law_when_a_migration_is_recorded(
        old(schema)@,
        version,
        crate::migrations::mode_of(version),
        now@,
        outcome@,
    );
}

/// A store that holds data is not migrated where no backup could be written.
pub proof fn law_migrating_behind_a_backup(
    schema: &mut Schema,
    now: &str,
    backup: Result<(), BackupError>,
    outcomes: &Vec<Outcome>,
    r: Result<(), ApplyError>,
)
    requires
        outcomes@.len() == MAX_KNOWN_VERSION,
        call_ensures(apply_all, (schema, now, backup, outcomes), r),
    ensures
        old(schema)@.version() > 0 && backup is Err ==> final(schema)@ == old(schema)@,
        0 < old(schema)@.version() < MAX_KNOWN_VERSION && backup is Err ==> r is Err,
        old(schema)@.version() > MAX_KNOWN_VERSION ==> r is Err && final(schema)@ == old(schema)@,
        old(schema)@.version() == MAX_KNOWN_VERSION ==> r is Ok && final(schema)@ == old(schema)@,
{
    let views = outcomes@.map_values(|o: Outcome| o@);
    law_data_is_backed_up_first(
        old(schema)@,
        now@,
        crate::migrations::backed_up(backup),
        views,
    );
    if old(schema)@.version() == MAX_KNOWN_VERSION {
        crate::migrations::law_a_current_store_is_left_alone(
            old(schema)@,
            now@,
            crate::migrations::backed_up(backup),
            views,
        );
    }
}

/// Whether a list has a Store of the ID with the facts.
pub open spec fn is_found(wanted: Wanted, list: Seq<Shortlisted>, entry: StoreEntryView) -> bool {
    exists|k: int|
        0 <= k < list.len() && (#[trigger] list[k])@.id == entry.name && list[k]@.facts
            == wanted.facts(entry)
}

/// What is discovered are the Stores that come into question, each with what
/// speaks for it, and those that pointers name and that are not there; the best
/// rank first, and by ID within a rank.
pub proof fn law_discovering(
    entries: Vec<StoreEntry>,
    pointers: &Vec<String>,
    common: &str,
    urls: &Vec<String>,
    r: Vec<Shortlisted>,
)
    requires
        call_ensures(discover, (entries, pointers, common, urls), r),
    ensures
        ({
            let wanted = Wanted {
                pointers: spread(pointers@),
                common: common@,
                urls: spread(urls@),
            };
            let all = entries@.map_values(|e: StoreEntry| e@);
            &&& forall|i: int|
                0 <= i < all.len() && in_question(wanted, #[trigger] all[i]) ==> is_found(
                    wanted,
                    r@,
                    all[i],
                )
            &&& forall|k: int|
                0 <= k < r@.len() ==> is_entry(wanted, all, (#[trigger] r@[k])@) || is_missing(
                    wanted,
                    r@[k]@,
                )
            &&& forall|a: int, b: int|
                0 <= a < b < r@.len() ==> (#[trigger] r@[a]).rank <= (#[trigger] r@[b]).rank
        }),
{
    let wanted = Wanted { pointers: spread(pointers@), common: common@, urls: spread(urls@) };
    let all = entries@.map_values(|e: StoreEntry| e@);
    let list = shortlist_of(r@);
    let due = wanted.shortlist(all);
    law_which_stores_are_shortlisted(wanted, all);
    list.to_multiset_ensures();
    due.to_multiset_ensures();
    assert forall|i: int|
        0 <= i < all.len() && in_question(wanted, #[trigger] all[i]) implies is_found(
        wanted,
        r@,
        all[i],
    ) by {
        assert(crate::laws::recovery::is_listed(wanted, due, all[i]));
        let k = choose|k: int|
            0 <= k < due.len() && (#[trigger] due[k]).id == all[i].name && due[k].facts
                == wanted.facts(all[i]) && due[k].manifest == all[i].manifest && due[k].rank
                == wanted.rank(all[i]);
        assert(due.contains(due[k]));
        assert(due.to_multiset().count(due[k]) > 0);
        assert(list.to_multiset().count(due[k]) > 0);
        assert(list.contains(due[k]));
        let n = choose|n: int| 0 <= n < list.len() && list[n] == due[k];
        assert(r@[n]@ == list[n]);
    }
    assert forall|k: int| 0 <= k < r@.len() implies is_entry(
        wanted,
        all,
        (#[trigger] r@[k])@,
    ) || is_missing(wanted, r@[k]@) by {
        assert(list[k] == r@[k]@);
        assert(list.contains(list[k]));
        assert(list.to_multiset().count(list[k]) > 0);
        assert(due.to_multiset().count(list[k]) > 0);
        assert(due.contains(list[k]));
        let n = choose|n: int| 0 <= n < due.len() && due[n] == list[k];
        assert(is_entry(wanted, all, due[n]) || is_missing(wanted, due[n]));
    }
    assert forall|a: int, b: int| 0 <= a < b < r@.len() implies (#[trigger] r@[a]).rank <= (
    #[trigger] r@[b]).rank by {
        assert(list[a] == r@[a]@ && list[b] == r@[b]@);
        assert(crate::recovery::ranked()(list[a], list[b]));
    }
}

/// An initialization goes on in its order.
pub proof fn law_advancing_an_initialization(
    setup: Setup,
    reply: Reply,
    r: Result<Setup, crate::repository::open::OpenError>,
)
    requires
        setup@.wf(),
        crate::initialize::answers(setup.task, reply@),
        call_ensures(Setup::advance, (setup, reply), r),
    ensures
        r is Ok ==> ({
            let next = r->Ok_0@;
            &&& next.wf()
            &&& next.root == setup@.root
            &&& next.task == crate::initialize::Task::InstallPointer ==> setup.task
                == crate::initialize::Task::Publish
            &&& next.task == crate::initialize::Task::DrawId ==> setup.task
                == crate::initialize::Task::SearchStores
            &&& next.task == crate::initialize::Task::OpenDatabase ==> setup.task
                == crate::initialize::Task::ReadManifest
            &&& next.task == crate::initialize::Task::Complete ==> setup.task
                == crate::initialize::Task::InstallPointer || setup.task
                == crate::initialize::Task::OpenDatabase
        }),
{
    if r is Ok {
        law_how_an_initialization_goes_on(setup@, reply@);
    }
}

/// A migration goes on in its order, copying and cleaning up.
pub proof fn law_advancing_a_migration(
    cutover: Cutover,
    reply: crate::relocation::cutover::Reply,
    r: Result<Cutover, crate::association::Error>,
)
    requires
        cutover@.wf(),
        answers(cutover.step, reply@),
        call_ensures(Cutover::advance, (cutover, reply), r),
    ensures
        r is Ok ==> leads_to_copy(cutover@, reply@, r->Ok_0@) && leads_to_cleanup(
            cutover@,
            reply@,
            r->Ok_0@,
        ) && r->Ok_0@.root == cutover@.root && r->Ok_0@.common == cutover@.common,
{
    if r is Ok {
        law_how_a_migration_copies(cutover@, reply@);
        law_how_a_migration_cleans_up(cutover@, reply@);
        law_what_a_migration_keeps(cutover@, reply@);
    }
}

/// A path still leads to the file that is held, and to it alone, exactly where
/// device and inode are the same and it has one name.
pub proof fn law_telling_a_moved_file(
    held: FileIdentity,
    current: FileIdentity,
    moved: bool,
    refused: Result<(), crate::association::Error>,
)
    requires
        call_ensures(has_moved, (held, current), moved),
        call_ensures(refuse_links, (current.links,), refused),
    ensures
        !moved == (held.device == current.device && held.inode == current.inode && refused is Ok),
{
}

proof fn lemma_inventoried(held: Held, entries: Seq<SourceEntry>, count: int, k: int)
    requires
        0 <= k < count <= entries.len(),
        inventoried(held, entries, count) is Ok,
    ensures
        entry_files(held, entries[k]) is Ok,
        forall|i: int|
            0 <= i < entry_files(held, entries[k])->Ok_0.len() ==> inventoried(
                held,
                entries,
                count,
            )->Ok_0.contains(#[trigger] entry_files(held, entries[k])->Ok_0[i]),
    decreases count,
{
    let before = inventoried(held, entries, count - 1)->Ok_0;
    let all = inventoried(held, entries, count)->Ok_0;
    let files = entry_files(held, entries[k])->Ok_0;
    let last = entry_files(held, entries[count - 1])->Ok_0;
    if k < count - 1 {
        lemma_inventoried(held, entries, count - 1, k);
        assert forall|i: int| 0 <= i < files.len() implies all.contains(#[trigger] files[i]) by {
            assert(before.contains(files[i]));
            let n = choose|n: int| 0 <= n < before.len() && before[n] == files[i];
            assert(all[n] == files[i]);
        }
    } else {
        assert forall|i: int| 0 <= i < files.len() implies all.contains(#[trigger] files[i]) by {
            assert(all[before.len() + i] == files[i]);
        }
    }
}

/// An inventory has every file of every entry, and is refused as a whole for
/// one entry that is not in order.
pub proof fn law_what_an_inventory_has(held: Held, entries: Seq<SourceEntry>, k: int)
    requires
        0 <= k < entries.len(),
    ensures
        entry_files(held, entries[k]) is Err ==> inventoried(
            held,
            entries,
            entries.len() as int,
        ) is Err,
        inventoried(held, entries, entries.len() as int) is Ok ==> forall|i: int|
            0 <= i < entry_files(held, entries[k])->Ok_0.len() ==> inventoried(
                held,
                entries,
                entries.len() as int,
            )->Ok_0.contains(#[trigger] entry_files(held, entries[k])->Ok_0[i]),
{
    if inventoried(held, entries, entries.len() as int) is Ok {
        lemma_inventoried(held, entries, entries.len() as int, k);
    }
}

/// A Store may be created exactly where no fact speaks for one that is there.
pub proof fn law_refusing_to_create(
    list: &Vec<Shortlisted>,
    r: Result<(), crate::association::Error>,
)
    requires
        call_ensures(refuse_recovery, (list,), r),
    ensures
        (r is Ok) == (forall|i: int|
            0 <= i < list@.len() ==> (#[trigger] list@[i]).facts@.len() == 0),
{
    assert forall|i: int| 0 <= i < list@.len() implies (#[trigger] list@[i])@.facts.len()
        == list@[i].facts@.len() by {}
}

/// A Store can be taken over exactly where its manifest, its lock, its owner
/// and its database all allow it.
pub proof fn law_telling_what_is_available(
    manifest: &Result<crate::association::Manifest, crate::association::Error>,
    lock: Result<(), crate::association::Error>,
    owner: Result<(), crate::association::Error>,
    database: Result<(), crate::repository::open::OpenError>,
    r: Result<(), String>,
)
    requires
        call_ensures(availability, (manifest, lock, owner, database), r),
    ensures
        (r is Ok) == (*manifest is Ok && lock is Ok && owner is Ok && database is Ok),
{
}

/// A Store holds nothing exactly where its database and all its backups do.
pub proof fn law_telling_what_is_vacant(
    database: Result<bool, crate::repository::open::OpenError>,
    backups: Result<Vec<BackupFact>, crate::association::Error>,
    r: Result<bool, crate::repository::open::OpenError>,
)
    requires
        call_ensures(vacant, (database, backups), r),
    ensures
        database is Err ==> r is Err,
        (r matches Ok(found) && found) == ((database matches Ok(empty) && empty) && (backups
            matches Ok(all) && forall|i: int|
            0 <= i < all@.len() ==> ((#[trigger] all@[i]).is_file matches Ok(file) && file) && (
            all@[i].vacant matches Ok(empty) && empty))),
{
    if let Ok(all) = backups {
        let facts = all@.map_values(|b: BackupFact| b@);
        law_when_backups_are_vacant(facts, 0);
        assert forall|i: int| 0 <= i < all@.len() implies (((#[trigger] all@[i]).is_file matches Ok(
            file,
        ) && file) && (all@[i].vacant matches Ok(empty) && empty)) == (facts[i].is_file == Ok::<
            bool,
            crate::association::Refusal,
        >(true) && facts[i].vacant == Ok::<bool, crate::repository::open::OpenFault>(true)) by {
            assert(facts[i] == all@[i]@);
        }
        if forall|i: int|
            0 <= i < all@.len() ==> ((#[trigger] all@[i]).is_file matches Ok(file) && file) && (
            all@[i].vacant matches Ok(empty) && empty) {
            assert forall|i: int| 0 <= i < facts.len() implies (#[trigger] facts[i]).is_file == Ok::<
                bool,
                crate::association::Refusal,
            >(true) && facts[i].vacant == Ok::<bool, crate::repository::open::OpenFault>(true) by {
                assert(all@[i].is_file matches Ok(file) && file);
            }
        }
    }
}

/// A lock that another holds is told apart from one that failed.
pub proof fn law_locking(attempt: Lock, r: Result<(), crate::association::Error>)
    requires
        call_ensures(locked, (attempt,), r),
    ensures
        (r is Ok) == (attempt is Held),
        attempt is WouldBlock ==> r->Err_0 is Busy,
        attempt is Failed ==> r->Err_0 is Io,
{
}

/// An initialization that is complete tells whether it made the Store, and where
/// its database is.
pub proof fn law_telling_what_was_initialized(setup: &Setup, r: Initialized)
    requires
        setup.task == crate::initialize::Task::Complete,
        setup@.wf(),
        call_ensures(Setup::initialized, (setup,), r),
    ensures
        (r is Created) == setup.fresh,
        match r {
            Initialized::Created(path) => path@ == crate::paths::below(
                crate::paths::below(setup.root@, setup@.id->0),
                "tk.db"@,
            ),
            Initialized::Existing(path) => path@ == crate::paths::below(
                crate::paths::below(setup.root@, setup@.id->0),
                "tk.db"@,
            ),
        },
{
}

/// A Store that exists is opened exactly where its file is there and carries the
/// application's ID and a version that is known.
pub proof fn law_opening(
    present: Result<bool, String>,
    application_id: &Result<i64, String>,
    version: &Result<i64, String>,
    r: Result<(), crate::repository::open::OpenError>,
)
    requires
        call_ensures(open_existing, (present, application_id, version), r),
    ensures
        (r is Ok) == ((present matches Ok(there) && there) && (*application_id matches Ok(id) && id
            == 0x544B_4442) && (*version matches Ok(known) && known <= MAX_KNOWN_VERSION)),
        present matches Ok(there) && !there ==> r->Err_0 is StoreMissing,
{
    crate::laws::stores::law_which_database_is_let_in(
        crate::repository::open::answer(*application_id),
        crate::repository::open::answer(*version),
    );
}

/// Stores live below the data directory where that is known and absolute, and
/// nowhere else.
pub proof fn law_finding_the_stores(
    data_root: Option<&str>,
    r: Result<String, crate::association::Error>,
)
    requires
        call_ensures(stores_root, (data_root,), r),
    ensures
        (r is Ok) == (data_root is Some && data_root->0@.len() > 0 && data_root->0@[0] == '/'),
        r is Ok ==> r->Ok_0@ == crate::paths::below(
            crate::paths::below(data_root->0@, "tk"@),
            "stores"@,
        ),
{
}

/// A pointer that is read names a Store where there is one value and it is a
/// Store ID, none where there is no value, and is refused otherwise.
pub proof fn law_following_a_pointer(
    read: Result<Vec<String>, String>,
    r: Result<Option<StoreId>, crate::association::Error>,
)
    requires
        call_ensures(pointer, (read,), r),
    ensures
        match read {
            Err(_) => r is Err,
            Ok(values) => match r {
                Ok(Some(id)) => values@.len() == 1 && id@ == values@[0]@ && id@.len() == 32,
                Ok(None) => values@.len() == 0,
                Err(_) => values@.len() > 0,
            },
        },
{
    if let Ok(values) = read {
        crate::laws::stores::law_what_a_pointer_means(spread(values@));
        if values@.len() == 1 {
            assert(spread(values@)[0] == values@[0]@);
        }
    }
}

} // verus!
