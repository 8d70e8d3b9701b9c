//! Stores as files: backups, migrations, who may open one and how one comes to
//! be.

use vstd::prelude::*;

use crate::association::{manifest_in, pointed, validated, ManifestView, ProbeView, Refusal};
use crate::backup::{
    three_places, zeros, backup_named, by_name, expendable, in_order, is_digit, lemma_by_name_total,
    pruned, stamped, versioned_at, BackupFault, BACKUPS_KEPT,
};
use crate::laws::words::{law_digits_stand_for_the_number, value};
use crate::initialize::{answers, ReplyView, SetupView, Task};
use crate::migrations::{
    applied_all, applied_from, applied_one, ApplyFault, ForeignKeys, OutcomeView, SchemaView,
    MAX_KNOWN_VERSION,
};
use crate::paths::{below, rooted, same_place};
use crate::repository::open::{admitted, OpenFault};
use crate::text::decimal_nat;

verus! {

/// Whether a name is a stamp, `-v`, a number of three places or more, and `.db`.
pub open spec fn is_made_of(name: Seq<char>, stamp: Seq<char>, number: Seq<char>) -> bool {
    &&& stamp.len() > 0
    &&& number.len() >= 3
    &&& forall|i: int| 0 <= i < number.len() ==> '0' <= #[trigger] number[i] <= '9'
    &&& name == stamp + "-v"@ + number + ".db"@
}

/// A backup is called by a stamp, `-v`, a number and `.db`, and nothing else is
/// taken for one.
pub proof fn law_what_a_backup_is_called(name: Seq<char>)
    ensures
        backup_named(name) == (exists|stamp: Seq<char>, number: Seq<char>| #[trigger]
            is_made_of(name, stamp, number)),
{
    reveal_strlit("-v");
    reveal_strlit(".db");
    assert("-v"@.len() == 2 && "-v"@[0] == '-' && "-v"@[1] == 'v');
    assert(".db"@.len() == 3);
    if backup_named(name) {
        let at = choose|at: int| versioned_at(name, at);
        let stamp = name.take(at);
        let number = name.subrange(at + 2, name.len() - 3);
        assert(name =~= stamp + "-v"@ + number + ".db"@) by {
            assert forall|i: int| name.len() - 3 <= i < name.len() implies name[i] == ".db"@[i - (
            name.len() - 3)] by {
                assert(name.skip(name.len() - 3)[i - (name.len() - 3)] == name[i]);
            }
        }
        assert forall|i: int| 0 <= i < number.len() implies '0' <= #[trigger] number[i] <= '9' by {
            assert(number[i] == name[at + 2 + i]);
            assert(is_digit(name[at + 2 + i]));
        }
        assert(is_made_of(name, stamp, number));
    }
    if exists|stamp: Seq<char>, number: Seq<char>| #[trigger] is_made_of(name, stamp, number) {
        let (stamp, number) = choose|stamp: Seq<char>, number: Seq<char>| #[trigger]
            is_made_of(name, stamp, number);
        let at = stamp.len() as int;
        assert forall|i: int| at + 2 <= i < name.len() - 3 implies is_digit(#[trigger] name[i]) by {
            assert(name[i] == number[i - at - 2]);
        }
        assert(name.skip(name.len() - 3) =~= ".db"@);
        assert(versioned_at(name, at));
    }
}

/// A prune leaves as many backups besides the one to keep as make the number
/// full, and all of them where there are fewer. What it deletes are backups of
/// the directory, not the one to keep, and none that it leaves is older.
pub proof fn law_what_a_prune_leaves(files: Seq<Seq<char>>, keep: Seq<char>)
    ensures
        ({
            let found = files.filter(expendable(keep));
            let gone = pruned(files, keep);
            let left = in_order(found).skip(gone.len() as int);
            &&& found.len() >= BACKUPS_KEPT ==> left.len() == BACKUPS_KEPT - 1
            &&& found.len() < BACKUPS_KEPT ==> gone.len() == 0
            &&& gone + left == in_order(found)
            &&& in_order(found).to_multiset() == found.to_multiset()
            &&& forall|i: int, j: int|
                0 <= i < gone.len() && 0 <= j < left.len() ==> crate::text::text_le(
                    #[trigger] gone[i],
                    #[trigger] left[j],
                )
        }),
        forall|name: Seq<char>| #[trigger]
            (expendable(keep))(name) == (backup_named(name) && name != keep),
{
    let found = files.filter(expendable(keep));
    let gone = pruned(files, keep);
    let left = in_order(found).skip(gone.len() as int);
    lemma_by_name_total();
    found.lemma_sort_by_ensures(by_name());
    found.to_multiset_ensures();
    in_order(found).to_multiset_ensures();
    assert(in_order(found).len() == found.len());
    assert(gone + left =~= in_order(found));
    assert forall|i: int, j: int|
        0 <= i < gone.len() && 0 <= j < left.len() implies crate::text::text_le(
        #[trigger] gone[i],
        #[trigger] left[j],
    ) by {
        assert(by_name()(in_order(found)[i], in_order(found)[gone.len() + j]));
    }
}

/// A stamp is the time with a dash for every colon.
pub proof fn law_a_stamp_is_the_time(now: Seq<char>)
    ensures
        stamped(now).len() == now.len(),
        forall|i: int|
            0 <= i < now.len() ==> #[trigger] stamped(now)[i] == (if now[i] == ':' {
                '-'
            } else {
                now[i]
            }),
{
}

/// A store that holds data is migrated only behind a backup: where one cannot
/// be written nothing changes. On a database without a schema, and on a store
/// that is current, a backup makes no difference.
pub proof fn law_data_is_backed_up_first(
    v: SchemaView,
    now: Seq<char>,
    backup: Result<(), BackupFault>,
    outcomes: Seq<OutcomeView>,
)
    ensures
        v.version() > 0 && backup is Err ==> applied_all(v, now, backup, outcomes).0 == v,
        0 < v.version() < MAX_KNOWN_VERSION && backup is Err ==> applied_all(
            v,
            now,
            backup,
            outcomes,
        ).1 == Err::<(), ApplyFault>(ApplyFault::Backup(backup->Err_0)),
        v.version() <= 0 || v.version() >= MAX_KNOWN_VERSION || backup is Ok ==> applied_all(
            v,
            now,
            backup,
            outcomes,
        ) == applied_all(v, now, Ok(()), outcomes),
        v.version() > MAX_KNOWN_VERSION ==> applied_all(v, now, backup, outcomes) == (
            v,
            Err::<(), ApplyFault>(ApplyFault::StoreFromFutureVersion),
        ),
{
    if v.version() == MAX_KNOWN_VERSION {
        crate::migrations::law_a_current_store_is_left_alone(v, now, backup, outcomes);
        crate::migrations::law_a_current_store_is_left_alone(v, now, Ok(()), outcomes);
    }
}

/// One migration is recorded with its time where its script ran, and, if
/// enforcement was off for it, no foreign key was left dangling. One that is
/// recorded is not run again, and one that failed leaves no record.
pub proof fn law_when_a_migration_is_recorded(
    v: SchemaView,
    version: int,
    foreign_keys: ForeignKeys,
    now: Seq<char>,
    outcome: OutcomeView,
)
    ensures
        ({
            let r = applied_one(v, version, foreign_keys, now, outcome);
            let dangling = foreign_keys == ForeignKeys::Off && outcome.dangling is Some;
            &&& version <= v.version() ==> r == Ok::<SchemaView, ApplyFault>(v)
            &&& version > v.version() ==> ((r is Ok) == (outcome.script is Ok && !dangling))
            &&& version > v.version() && r is Ok ==> r->Ok_0.applied == v.applied.push(
                (version, now),
            ) && r->Ok_0.user_version == version
            &&& version > v.version() && outcome.script is Err ==> r == Err::<
                SchemaView,
                ApplyFault,
            >(ApplyFault::Sqlite(outcome.script->Err_0))
            &&& version > v.version() && outcome.script is Ok && dangling ==> r == Err::<
                SchemaView,
                ApplyFault,
            >(ApplyFault::ForeignKeyCheck(outcome.dangling->0))
        }),
{
}

/// What a failed script leaves: no version from the failed one on is recorded.
pub proof fn law_a_failed_migration_stops_the_run(
    v: SchemaView,
    recorded: int,
    version: int,
    now: Seq<char>,
    outcomes: Seq<OutcomeView>,
    failed: int,
)
    requires
        v.version() < failed,
        recorded < failed,
        1 <= version <= failed <= MAX_KNOWN_VERSION,
        outcomes[failed - 1].script is Err,
    ensures
        ({
            let (reached, ended) = applied_from(v, recorded, version, now, outcomes);
            &&& ended is Err
            &&& reached.version() < failed
        }),
    decreases failed - version,
{
    if version <= recorded {
        law_a_failed_migration_stops_the_run(v, recorded, version + 1, now, outcomes, failed);
    } else if version < failed {
        match applied_one(
            v,
            version,
            crate::migrations::mode_of(version),
            now,
            outcomes[version - 1],
        ) {
            Err(_) => {},
            Ok(next) => {
                if version > v.version() {
                    assert(next.applied.drop_last() =~= v.applied);
                    lemma_version_after(v, next, version);
                }
                law_a_failed_migration_stops_the_run(
                    next,
                    recorded,
                    version + 1,
                    now,
                    outcomes,
                    failed,
                );
            },
        }
    }
}

proof fn lemma_version_after(v: SchemaView, next: SchemaView, version: int)
    requires
        next.applied.len() == v.applied.len() + 1,
        next.applied.drop_last() == v.applied,
        next.applied.last().0 == version,
        version > v.version(),
    ensures
        next.version() <= version,
{
    let before = SchemaView { applied: next.applied.drop_last(), ..next };
    crate::migrations::lemma_version_header(before, v);
    if next.applied.len() == 1 {
        assert(next.applied[0] == next.applied.last());
    }
}

/// The values of the pointer mean a Store where there is exactly one and it is
/// a Store ID, and none where there is none; everything else is refused.
pub proof fn law_what_a_pointer_means(values: Seq<Seq<char>>)
    ensures
        match pointed(values) {
            Ok(None) => values.len() == 0,
            Ok(Some(id)) => {
                &&& values == seq![id]
                &&& id.len() == 32
                &&& forall|i: int|
                    0 <= i < 32 ==> '0' <= (#[trigger] id[i]) <= '9' || 'a' <= id[i] <= 'f'
            },
            Err(Refusal::DuplicatePointer) => values.len() > 1,
            Err(Refusal::InvalidPointer) => values.len() == 1 && (values[0].len() != 32 || exists|i: int|
                0 <= i < values[0].len() && !('0' <= (#[trigger] values[0][i]) <= '9' || 'a'
                    <= values[0][i] <= 'f')),
            Err(_) => false,
        },
{
    if values.len() == 1 {
        assert(values =~= seq![values[0]]);
        if pointed(values) is Ok {
            let id = values[0];
            assert forall|i: int| 0 <= i < 32 implies '0' <= (#[trigger] id[i]) <= '9' || 'a'
                <= id[i] <= 'f' by {
                assert(crate::association::is_hex(id[i]));
            }
        } else if values[0].len() == 32 {
            let k = choose|k: int|
                0 <= k < values[0].len() && !crate::association::is_hex(#[trigger] values[0][k]);
            assert(!('0' <= (values[0][k]) <= '9' || 'a' <= values[0][k] <= 'f'));
        }
    }
}

/// A Store is opened exactly where its directory is one, its manifest is
/// readable, of the known version and about this very Store, all the places in
/// it are absolute, and the repository is the one that it names. What is opened
/// is the database in the Store's own directory.
pub proof fn law_who_may_open_a_store(
    root: Seq<char>,
    id: Seq<char>,
    common: Seq<char>,
    directory: ProbeView,
    read: Result<ManifestView, Refusal>,
)
    ensures
        ({
            let r = validated(root, id, common, manifest_in(id, directory, read));
            let m = read->Ok_0;
            &&& (r is Ok) == {
                &&& directory is Directory
                &&& read is Ok
                &&& m.store_id == id
                &&& m.version == 1
                &&& rooted(m.git_common_dir)
                &&& forall|i: int|
                    0 <= i < m.previous_git_common_dirs.len() ==> rooted(
                        #[trigger] m.previous_git_common_dirs[i],
                    )
                &&& same_place(m.git_common_dir, common)
            }
            &&& r is Ok ==> r->Ok_0 == below(below(root, id), "tk.db"@)
            &&& r == Err::<Seq<char>, Refusal>(Refusal::AssociationMismatch) && read is Ok
                ==> !same_place(m.git_common_dir, common)
            &&& directory is Directory && read is Err ==> r is Err && r->Err_0 == read->Err_0
            &&& directory is File || directory is Other ==> r == Err::<Seq<char>, Refusal>(
                Refusal::Manifest,
            )
        }),
{
}

/// A database is worked with exactly where it carries the application's ID and
/// a version that is known; what cannot be read is passed on.
pub proof fn law_which_database_is_let_in(
    application_id: Result<i64, Seq<char>>,
    version: Result<i64, Seq<char>>,
)
    ensures
        (admitted(application_id, version) is Ok) == (application_id == Ok::<i64, Seq<char>>(
            0x544B_4442,
        ) && version is Ok && version->Ok_0 <= MAX_KNOWN_VERSION),
        match admitted(application_id, version) {
            Ok(()) => true,
            Err(OpenFault::NotTicketStore) => application_id is Ok && application_id->Ok_0
                != 0x544B_4442,
            Err(OpenFault::FromFutureVersion) => version is Ok && version->Ok_0 > MAX_KNOWN_VERSION,
            Err(OpenFault::Sqlite(text)) => application_id == Err::<i64, Seq<char>>(text) || version
                == Err::<i64, Seq<char>>(text),
            Err(_) => false,
        },
{
}

/// An initialization does one thing after another: it finds the repository,
/// looks for older data and for a pointer; without one it takes the lock, looks
/// for a pointer again and for Stores that may be the repository's; and only
/// then is a Store drawn, its directory reserved, its database made, its
/// manifest published and its pointer installed. What the pointer names is
/// validated before its database is opened.
pub proof fn law_how_an_initialization_goes_on(v: SetupView, reply: ReplyView)
    requires
        v.wf(),
        answers(v.task, reply),
        v.after(reply) is Ok,
    ensures
        ({
            let next = v.after(reply)->Ok_0;
            &&& next.wf()
            &&& next.root == v.root
            &&& match next.task {
                Task::FindCommon => false,
                Task::ProbeLegacy => v.task == Task::FindCommon && reply
                    == ReplyView::Common(next.common),
                Task::ReadPointer => v.task == Task::ProbeLegacy && reply is Found
                    && reply->Found_0 is Absent,
                Task::LockInit => v.task == Task::ReadPointer && reply is Values
                    && reply->Values_0.len() == 0,
                Task::RereadPointer => v.task == Task::LockInit,
                Task::ReadRemotes => v.task == Task::RereadPointer && reply is Values
                    && reply->Values_0.len() == 0,
                Task::SearchStores => v.task == Task::ReadRemotes && reply == ReplyView::Values(
                    next.urls,
                ),
                Task::DrawId => v.task == Task::SearchStores,
                Task::Reserve => v.task == Task::DrawId && reply == ReplyView::Drawn(next.id->0)
                    && next.fresh,
                Task::CreateDatabase => v.task == Task::Reserve && reply is Directory
                    && reply->Directory_0 == Ok::<bool, Seq<char>>(true),
                Task::Publish => v.task == Task::CreateDatabase,
                Task::InstallPointer => v.task == Task::Publish,
                Task::ReadManifest => (v.task == Task::ReadPointer || v.task
                    == Task::RereadPointer) && reply == ReplyView::Values(seq![next.id->0])
                    && !next.fresh,
                Task::OpenDatabase => v.task == Task::ReadManifest && reply is ManifestRead
                    && reply->ManifestRead_0 is Directory && reply->ManifestRead_1 is Ok
                    && same_place(reply->ManifestRead_1->Ok_0.git_common_dir, v.common)
                    && reply->ManifestRead_1->Ok_0.store_id == v.id->0,
                Task::Complete => v.task == Task::InstallPointer || v.task == Task::OpenDatabase,
            }
            &&& v.task != Task::FindCommon ==> next.common == v.common
            &&& v.task != Task::ReadRemotes ==> next.urls == v.urls
            &&& v.task != Task::DrawId && v.task != Task::ReadPointer && v.task
                != Task::RereadPointer ==> next.id == v.id && next.fresh == v.fresh
        }),
{
    match reply {
        ReplyView::Values(values) => {
            if values.len() == 1 {
                assert(values =~= seq![values[0]]);
            }
        },
        _ => {},
    }
}

/// An initialization stops where something failed, where older data or anything
/// unreadable is in the way, where the pointer or the manifest is refused, and
/// where the drawn directory exists; nowhere else.
pub proof fn law_when_an_initialization_stops(v: SetupView, reply: ReplyView)
    requires
        v.wf(),
        answers(v.task, reply),
    ensures
        (v.after(reply) is Err) == match reply {
            ReplyView::Failed(_) => true,
            ReplyView::Found(probe) => !(probe is Absent),
            ReplyView::Values(values) => v.task != Task::ReadRemotes && pointed(values) is Err,
            ReplyView::ManifestRead(directory, read) => validated(
                v.root,
                v.id->0,
                v.common,
                manifest_in(v.id->0, directory, read),
            ) is Err,
            ReplyView::Directory(made) => made != Ok::<bool, Seq<char>>(true),
            _ => false,
        },
        reply is Failed ==> v.after(reply) == Err::<SetupView, OpenFault>(reply->Failed_0),
        reply == ReplyView::Directory(Ok(false)) ==> v.after(reply) == Err::<SetupView, OpenFault>(
            OpenFault::Association(Refusal::Collision),
        ),
        reply is Found && (reply->Found_0 is File || reply->Found_0 is Directory
            || reply->Found_0 is Other) ==> v.after(reply) == Err::<SetupView, OpenFault>(
            OpenFault::Association(Refusal::Legacy),
        ),
{
}

/// What is published about a new Store is its own ID, the repository that it is
/// for and the remotes that were read, and its database is in its directory.
pub proof fn law_what_is_published(v: SetupView)
    requires
        v.id is Some,
    ensures
        v.manifest().version == 1,
        v.id == Some(v.manifest().store_id),
        v.manifest().git_common_dir == v.common,
        v.manifest().git_remote_urls == v.urls,
        v.manifest().previous_git_common_dirs.len() == 0,
        v.database() == below(below(v.root, v.id->0), "tk.db"@),
        rooted(v.common) ==> v.manifest().sound(v.id->0),
{
}

/// A version in a backup's name stands for itself, in three places or more.
pub proof fn law_a_version_is_written_in_three_places(version: nat)
    ensures
        three_places(version as int).len() >= 3,
        value(three_places(version as int)) == version,
{
    law_digits_stand_for_the_number(version);
    let digits = decimal_nat(version);
    let pad = zeros(3 - digits.len());
    assert(three_places(version as int) == pad + digits);
    lemma_zeros(pad, digits);
}

proof fn lemma_zeros(pad: Seq<char>, digits: Seq<char>)
    requires
        forall|i: int| 0 <= i < pad.len() ==> pad[i] == '0',
    ensures
        value(pad + digits) == value(digits),
    decreases pad.len() + digits.len(),
{
    let all = pad + digits;
    if digits.len() > 0 {
        assert(all.drop_last() =~= pad + digits.drop_last());
        lemma_zeros(pad, digits.drop_last());
    } else if pad.len() > 0 {
        assert(all =~= pad);
        let less = pad.drop_last();
        assert(all.drop_last() =~= less + digits);
        lemma_zeros(less, digits);
        assert(pad[pad.len() - 1] == '0');
    } else {
        assert(all =~= digits);
    }
}

} // verus!
