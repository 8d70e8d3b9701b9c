//! Moving a legacy Store to where Stores live.

use vstd::prelude::*;

use crate::association::{manifest_in, validated, ProbeView, Refusal};
use crate::laws::words::law_a_name_below_a_path_is_its_last;
use crate::paths::{below, names, same_place};
use crate::relocation::cutover::{answers, Boundary, CutoverView, LeftoverView, ReplyView, Step};
use crate::relocation::metadata::{
    accessible, all_belong, backups, belongs, in_backups, receipt_in, recorded, FileHashView,
    ProgressView, ReceiptView, TracesView,
};
use crate::relocation::source::{
    all_listed, backup_hash, backup_hashes, but_database, entry_files, found_in, same_files,
    BackupEntry, Content, Held, SourceEntry,
};
use crate::select::lemma_filter_contains;
use crate::text::hex;

verus! {

/// Whether a record is that of a migration of this repository to this place.
pub open spec fn is_for(record: ProgressView, common: Seq<char>, root: Seq<char>) -> bool {
    record.version == 1 && same_place(record.common, common) && same_place(record.root, root)
}

/// Whether two records are of one migration.
pub open spec fn is_one(a: ProgressView, b: ProgressView) -> bool {
    &&& a.version == b.version
    &&& a.store_id == b.store_id
    &&& a.token == b.token
    &&& same_place(a.common, b.common)
    &&& same_place(a.root, b.root)
}

/// A record counts exactly where it could be read and is for the repository and
/// the place at hand, and then it is taken as it is.
pub proof fn law_which_record_counts(
    read: Result<ProgressView, Refusal>,
    common: Seq<char>,
    root: Seq<char>,
)
    ensures
        (recorded(read, common, root) is Ok) == (read is Ok && is_for(read->Ok_0, common, root)),
        recorded(read, common, root) is Ok ==> recorded(read, common, root) == read,
        read is Err ==> recorded(read, common, root) == read,
{
}

/// A receipt counts exactly where it was read from a directory, is of the very
/// migration, and lists no file that is not a legacy Store's.
pub proof fn law_which_receipt_counts(
    directory: ProbeView,
    read: Result<ReceiptView, Refusal>,
    record: ProgressView,
)
    ensures
        (receipt_in(directory, read, record) is Ok) == (directory is Directory && read is Ok
            && is_one(read->Ok_0.progress, record) && all_belong(read->Ok_0.files)),
        receipt_in(directory, read, record) is Ok ==> receipt_in(directory, read, record) == read,
{
}

/// Whether something is at the place, for all that is known.
pub open spec fn is_seen(probe: ProbeView) -> bool {
    probe is File || probe is Directory || probe is Other
}

/// Where neither legacy data nor a receipt is left, a Store may be opened.
/// Where either is, it may exactly with the record of a migration to that very
/// Store and its receipt.
pub proof fn law_who_may_open_a_moved_store(
    id: Seq<char>,
    common: Seq<char>,
    root: Seq<char>,
    traces: TracesView,
)
    ensures
        traces.source is Absent && traces.marker is Absent ==> accessible(
            id,
            common,
            root,
            traces,
        ) is Ok,
        is_seen(traces.source) || (traces.source is Absent && is_seen(traces.marker)) ==> ((
        accessible(id, common, root, traces) is Ok) == {
            &&& traces.progress is Ok
            &&& is_for(traces.progress->Ok_0, common, root)
            &&& traces.progress->Ok_0.store_id == id
            &&& traces.directory is Directory
            &&& traces.receipt is Ok
            &&& is_one(traces.receipt->Ok_0.progress, traces.progress->Ok_0)
            &&& all_belong(traces.receipt->Ok_0.files)
        }),
        traces.source is Unreadable || (traces.source is Absent && traces.marker is Unreadable)
            ==> accessible(id, common, root, traces) is Err,
{
}

/// A list gives for a name the fingerprint of the last file that goes by it.
pub proof fn law_what_a_list_gives_for_a_name(files: Seq<FileHashView>, name: Seq<char>)
    ensures
        match found_in(files, name) {
            Some(hash) => exists|i: int|
                {
                    &&& 0 <= i < files.len()
                    &&& (#[trigger] files[i]).name == name
                    &&& files[i].hash == hash
                    &&& forall|j: int| i < j < files.len() ==> (#[trigger] files[j]).name != name
                },
            None => forall|i: int| 0 <= i < files.len() ==> (#[trigger] files[i]).name != name,
        },
    decreases files.len(),
{
    if files.len() > 0 {
        let rest = files.drop_last();
        law_what_a_list_gives_for_a_name(rest, name);
        assert(files[files.len() - 1] == files.last());
        if files.last().name != name {
            match found_in(rest, name) {
                Some(hash) => {
                    let i = choose|i: int|
                        {
                            &&& 0 <= i < rest.len()
                            &&& (#[trigger] rest[i]).name == name
                            &&& rest[i].hash == hash
                            &&& forall|j: int|
                                i < j < rest.len() ==> (#[trigger] rest[j]).name != name
                        };
                    assert(files[i] == rest[i]);
                    assert forall|j: int| i < j < files.len() implies (#[trigger] files[j]).name
                        != name by {
                        if j < rest.len() {
                            assert(rest[j] == files[j]);
                        }
                    }
                },
                None => {
                    assert forall|i: int| 0 <= i < files.len() implies (#[trigger] files[i]).name
                        != name by {
                        if i < rest.len() {
                            assert(rest[i] == files[i]);
                        }
                    }
                },
            }
        }
    }
}

/// Two lists are the same files exactly where each gives for every name what the
/// other does: a file that is missing, added or changed tells them apart.
pub proof fn law_when_files_are_the_same(
    a: Seq<FileHashView>,
    b: Seq<FileHashView>,
    name: Seq<char>,
)
    ensures
        same_files(a, b) ==> found_in(a, name) == found_in(b, name),
        found_in(a, name) != found_in(b, name) ==> !same_files(a, b),
        (forall|n: Seq<char>| found_in(a, n) == #[trigger] found_in(b, n)) ==> same_files(a, b),
        same_files(a, b) == same_files(b, a),
{
    if same_files(a, b) {
        assert forall|n: Seq<char>| found_in(b, n) == #[trigger] found_in(a, n) by {
            assert(found_in(a, n) == found_in(b, n));
        }
    }
    if same_files(b, a) {
        assert forall|n: Seq<char>| found_in(a, n) == #[trigger] found_in(b, n) by {
            assert(found_in(b, n) == found_in(a, n));
        }
    }
    assert(same_files(a, b) ==> found_in(a, name) == found_in(b, name));
}

/// A cleanup removes every file that is left but the database, which goes last
/// and by itself.
pub proof fn law_what_a_cleanup_removes(files: Seq<FileHashView>, name: Seq<char>)
    ensures
        but_database(files).contains(name) == (name != "tk.db"@ && exists|i: int|
            0 <= i < files.len() && (#[trigger] files[i]).name == name),
    decreases files.len(),
{
    if files.len() > 0 {
        let rest = files.drop_last();
        law_what_a_cleanup_removes(rest, name);
        let all = but_database(files);
        let before = but_database(rest);
        assert(files[files.len() - 1] == files.last());
        if all.contains(name) {
            let k = choose|k: int| 0 <= k < all.len() && all[k] == name;
            if k < before.len() {
                assert(before[k] == name);
                assert(before.contains(name));
                let i = choose|i: int| 0 <= i < rest.len() && (#[trigger] rest[i]).name == name;
                assert(files[i].name == name);
            }
        }
        if name != "tk.db"@ && exists|i: int|
            0 <= i < files.len() && (#[trigger] files[i]).name == name {
            let i = choose|i: int| 0 <= i < files.len() && (#[trigger] files[i]).name == name;
            if i < rest.len() {
                assert(rest[i].name == name);
                let k = choose|k: int| 0 <= k < before.len() && before[k] == name;
                assert(all[k] == name);
            } else {
                assert(all[before.len() as int] == name);
            }
        }
    }
}

/// Copied beside the database are the files of the backup directory, and no
/// others.
pub proof fn law_which_files_are_copied_as_they_are(files: Seq<FileHashView>, i: int)
    requires
        0 <= i < files.len(),
    ensures
        in_backups(files[i].name) ==> backups(files).contains(files[i]),
        forall|k: int|
            0 <= k < backups(files).len() ==> in_backups((#[trigger] backups(files)[k]).name)
                && files.contains(backups(files)[k]),
{
    let cond = |file: FileHashView| in_backups(file.name);
    lemma_filter_contains(files, cond);
    assert(cond(files[i]) == in_backups(files[i].name));
}

/// What a listing of backups says: each file by its name and fingerprint, in
/// order, and nothing where one of them could not be read.
pub proof fn law_what_a_listing_of_backups_says(
    dir: Seq<char>,
    entries: Seq<BackupEntry>,
    count: int,
    k: int,
)
    requires
        0 <= k < count <= entries.len(),
    ensures
        match backup_hashes(dir, entries, count) {
            Ok(files) => {
                &&& files.len() == count
                &&& files[k].name == crate::paths::below("backups"@, entries[k].name@)
                &&& backup_hash(
                    entries[k].content,
                    crate::paths::below(dir, entries[k].name@),
                ) == Ok::<Seq<char>, Refusal>(files[k].hash)
            },
            Err(_) => true,
        },
        backup_hash(entries[k].content, crate::paths::below(dir, entries[k].name@)) is Err
            ==> backup_hashes(dir, entries, count) is Err,
    decreases count,
{
    if k < count - 1 {
        law_what_a_listing_of_backups_says(dir, entries, count - 1, k);
    }
    lemma_listed(dir, entries, count - 1);
}

proof fn lemma_listed(dir: Seq<char>, entries: Seq<BackupEntry>, count: int)
    requires
        0 <= count,
    ensures
        backup_hashes(dir, entries, count) is Ok ==> backup_hashes(
            dir,
            entries,
            count,
        )->Ok_0.len() == count,
    decreases count,
{
    if count > 0 {
        lemma_listed(dir, entries, count - 1);
    }
}

/// Whether the manifest that was read lets the repository into the Store of the
/// migration.
pub open spec fn lets_in(v: CutoverView, reply: ReplyView) -> bool {
    reply matches ReplyView::ManifestRead(directory, read) && directory is Directory && read is Ok
        && read->Ok_0.store_id == v.id() && read->Ok_0.version == 1 && same_place(
        read->Ok_0.git_common_dir,
        v.common,
    )
}

/// Whether the receipt that was read is the migration's own.
pub open spec fn is_own(v: CutoverView, reply: ReplyView) -> bool {
    reply matches ReplyView::ReceiptRead(directory, read) && directory is Directory && read is Ok
        && is_one(read->Ok_0.progress, v.progress->0)
}

/// Whether a migration may come to the step, up to the installation of the
/// pointer, from where it stands.
pub open spec fn leads_to_copy(v: CutoverView, reply: ReplyView, next: CutoverView) -> bool {
    match next.step {
        Step::LockMigration => false,
        Step::LockRemote => v.step == Step::LockMigration,
        Step::ReadPointers => v.step == Step::LockRemote,
        Step::ProbeRecord => v.step == Step::ReadPointers && reply == ReplyView::Values(
            next.pointers,
        ),
        Step::ReadProgress => v.step == Step::ProbeRecord && reply == ReplyView::Present(true),
        Step::InspectNewSource => v.step == Step::ProbeRecord && reply == ReplyView::Present(false)
            && v.pointers.len() == 0,
        Step::DrawIds => v.step == Step::InspectNewSource,
        Step::ProbeTaken => v.step == Step::DrawIds && next.progress is Some && reply
            == ReplyView::Drawn(
            next.progress->0.store_id,
            next.progress->0.token,
            next.progress->0.root,
        ) && next.progress->0.version == 1 && next.progress->0.common == v.common,
        Step::WriteRecord => v.step == Step::ProbeTaken && reply == ReplyView::Present(false),
        Step::Observe(Boundary::Recorded) => v.step == Step::WriteRecord || (v.step
            == Step::ReadProgress && reply is Progressed && next.progress is Some
            && reply->Progressed_0 == Ok::<ProgressView, Refusal>(next.progress->0) && is_for(
            next.progress->0,
            v.common,
            reply->Progressed_1,
        )),
        Step::InspectSource => v.step == Step::Observe(Boundary::Recorded) && v.pointers.len() == 0,
        Step::Freeze => v.step == Step::InspectSource,
        Step::TakeInventory => v.step == Step::Freeze,
        Step::ProbeStaged => v.step == Step::TakeInventory && reply == ReplyView::Files(next.files),
        Step::ClearStaged => v.step == Step::ProbeStaged && (reply matches ReplyView::Leftover(
            LeftoverView::Directory(receipt, entries),
        ) && !receipt && forall|i: int|
            0 <= i < entries.len() ==> #[trigger] entries[i] == ("migration.pending"@, true)),
        Step::ReadStagedReceipt => v.step == Step::ProbeStaged && reply != ReplyView::Leftover(
            LeftoverView::Missing,
        ),
        Step::RemoveStaged => v.step == Step::ReadStagedReceipt && is_own(v, reply),
        Step::ProbeStore => v.step == Step::ClearStaged || v.step == Step::RemoveStaged || (v.step
            == Step::ProbeStaged && reply == ReplyView::Leftover(LeftoverView::Missing)),
        Step::ReadStoreReceipt => v.step == Step::ProbeStore && reply == ReplyView::Present(true),
        Step::TryStoreLock => v.step == Step::ReadStoreReceipt && is_own(v, reply),
        Step::RemoveStore => v.step == Step::TryStoreLock,
        Step::CreateStage => v.step == Step::RemoveStore || (v.step == Step::ProbeStore && reply
            == ReplyView::Present(false)),
        Step::Observe(Boundary::Reserved) => v.step == Step::CreateStage,
        Step::WriteReceipt => v.step == Step::Observe(Boundary::Reserved),
        Step::Snapshot => v.step == Step::WriteReceipt,
        Step::Observe(Boundary::Staged) => v.step == Step::Snapshot,
        Step::InspectImages => v.step == Step::Observe(Boundary::Staged),
        Step::Publish => v.step == Step::InspectImages,
        Step::Observe(Boundary::Validated) => v.step == Step::Publish,
        Step::MoveIntoPlace => v.step == Step::Observe(Boundary::Validated),
        Step::CheckPlaced => v.step == Step::MoveIntoPlace,
        Step::LockPlaced => v.step == Step::CheckPlaced && lets_in(v, reply),
        Step::Observe(Boundary::Published) => v.step == Step::LockPlaced,
        Step::Recheck => v.step == Step::Observe(Boundary::Published),
        Step::InstallPointer => v.step == Step::Recheck && reply is Files && forall|n: Seq<char>|
            #[trigger] found_in(reply->Files_0, n) == found_in(v.files, n),
        _ => true,
    }
}

/// Whether a migration may come to the step, from the installation of the
/// pointer on or where it was found installed, from where it stands.
pub open spec fn leads_to_cleanup(v: CutoverView, reply: ReplyView, next: CutoverView) -> bool {
    match next.step {
        Step::LockStore => v.step == Step::Observe(Boundary::Recorded) && v.pointers.len() == 1
            && v.pointers[0] == v.id() && next.resumed && next.pointed,
        Step::CheckStore => v.step == Step::LockStore,
        Step::InspectStore => v.step == Step::CheckStore && lets_in(v, reply),
        Step::ProbeLeftovers => v.step == Step::InspectStore,
        Step::ReadReceipt => v.step == Step::ProbeLeftovers && reply == ReplyView::Present(true),
        Step::CheckPointed => v.step == Step::InstallPointer && next.pointed,
        Step::FlushPointer => (v.step == Step::CheckPointed && lets_in(v, reply)) || (v.step
            == Step::ReadReceipt && is_own(v, reply) && next.files
            == reply->ReceiptRead_1->Ok_0.files),
        Step::Observe(Boundary::Pointed) => v.step == Step::FlushPointer && !v.resumed,
        Step::ReleaseSource => v.step == Step::Observe(Boundary::Pointed) || (v.step
            == Step::FlushPointer && v.resumed),
        Step::ProbeSource => v.step == Step::ReleaseSource,
        Step::LockRemains => v.step == Step::ProbeSource && reply == ReplyView::Found(
            ProbeView::Directory,
        ),
        Step::ProbeDatabase => v.step == Step::LockRemains,
        Step::FreezeRemains => v.step == Step::ProbeDatabase && reply == ReplyView::Present(true),
        Step::TakeRemains => v.step == Step::FreezeRemains,
        Step::ListRemains => v.step == Step::ProbeDatabase && reply == ReplyView::Present(false),
        Step::Observe(Boundary::Cleanup) => {
            ||| v.step == Step::TakeRemains && reply is Files && next.queue == but_database(
                reply->Files_0,
            ) && forall|i: int|
                0 <= i < reply->Files_0.len() ==> found_in(
                    v.files,
                    (#[trigger] reply->Files_0[i]).name,
                ) == Some(reply->Files_0[i].hash)
            ||| v.step == Step::ListRemains && reply is Values && reply->Values_0.len() == 0
                && next.queue.len() == 0
        },
        Step::ReleaseRemains => v.step == Step::Observe(Boundary::Cleanup),
        Step::RemoveFile => (v.step == Step::ReleaseRemains || v.step == Step::Observe(
            Boundary::CleanedFile,
        )) && v.queue.len() > 0 && next.queue == v.queue,
        Step::Observe(Boundary::CleanedFile) => v.step == Step::RemoveFile && next.queue
            == v.queue.skip(1),
        Step::RemoveBackups => (v.step == Step::ReleaseRemains || v.step == Step::Observe(
            Boundary::CleanedFile,
        )) && v.queue.len() == 0,
        Step::RemoveDatabase => v.step == Step::RemoveBackups,
        Step::RemoveSource => v.step == Step::RemoveDatabase,
        Step::Observe(Boundary::Removed) => v.step == Step::RemoveSource,
        Step::RemoveMarker => v.step == Step::Observe(Boundary::Removed) || (v.step
            == Step::ProbeSource && reply is Found && reply->Found_0 is Absent) || (v.step
            == Step::ProbeLeftovers && reply == ReplyView::Present(false)),
        Step::Observe(Boundary::Finished) => v.step == Step::RemoveMarker,
        Step::RemoveRecord => v.step == Step::Observe(Boundary::Finished),
        Step::Complete => v.step == Step::RemoveRecord,
        _ => true,
    }
}

/// A migration copies in one order: locks, pointers, the record before anything
/// is made, the legacy data inspected, frozen and listed, what an earlier
/// attempt left removed only where it is its own, then staging, receipt, copy,
/// inspection, manifest, the move into place, and the pointer only where the
/// legacy files are still those that were listed.
pub proof fn law_how_a_migration_copies(v: CutoverView, reply: ReplyView)
    requires
        v.wf(),
        answers(v.step, reply),
        v.after(reply) is Ok,
    ensures
        leads_to_copy(v, reply, v.after(reply)->Ok_0),
{
    if v.step == Step::Recheck && reply is Files && v.after(reply)->Ok_0.step
        == Step::InstallPointer {
        let files = reply->Files_0;
        assert forall|n: Seq<char>| #[trigger] found_in(files, n) == found_in(v.files, n) by {
            assert(found_in(files, n) == found_in(v.files, n));
        }
    }
}

/// A migration cleans up in one order, and only behind a pointer that names its
/// Store: the Store is let in and inspected, what is left of the legacy data is
/// locked and held against the receipt, its files are removed one by one, then
/// the directories and the database, and the receipt and the record last.
pub proof fn law_how_a_migration_cleans_up(v: CutoverView, reply: ReplyView)
    requires
        v.wf(),
        answers(v.step, reply),
        v.after(reply) is Ok,
    ensures
        leads_to_cleanup(v, reply, v.after(reply)->Ok_0),
{
}

/// A migration keeps what it knows: where it is, its record once it has one,
/// the pointers once they are read, and the files of its receipt.
pub proof fn law_what_a_migration_keeps(v: CutoverView, reply: ReplyView)
    requires
        v.wf(),
        answers(v.step, reply),
        v.after(reply) is Ok,
    ensures
        ({
            let next = v.after(reply)->Ok_0;
            &&& next.wf()
            &&& next.root == v.root
            &&& next.common == v.common
            &&& v.step != Step::ReadPointers ==> next.pointers == v.pointers
            &&& v.step != Step::ReadProgress && v.step != Step::DrawIds ==> next.progress
                == v.progress
            &&& v.step != Step::TakeInventory && v.step != Step::ReadReceipt ==> next.files
                == v.files
            &&& v.pointed ==> next.pointed
            &&& next.pointed && !v.pointed ==> v.step == Step::InstallPointer || next.step
                == Step::LockStore
            &&& next.resumed && !v.resumed ==> next.step == Step::LockStore
        }),
{
}

/// A migration stops where something failed, and where what it found is not
/// what it may go on with; nowhere else.
pub proof fn law_when_a_migration_stops(v: CutoverView, reply: ReplyView)
    requires
        v.wf(),
        answers(v.step, reply),
    ensures
        (v.after(reply) is Err) == match reply {
            ReplyView::Failed(_) => true,
            ReplyView::Done => v.step == Step::Observe(Boundary::Recorded) && v.pointers.len() > 0
                && v.pointers != seq![v.id()],
            ReplyView::Present(found) => (v.step == Step::ProbeTaken && found) || (v.step
                == Step::ProbeRecord && !found && v.pointers.len() > 0),
            ReplyView::Found(probe) => !(probe is Absent || probe is Directory),
            ReplyView::Values(values) => v.step == Step::ListRemains && values.len() > 0,
            ReplyView::Progressed(read, root) => recorded(read, v.common, root) is Err,
            ReplyView::Drawn(_, _, _) => false,
            ReplyView::ManifestRead(directory, read) => validated(
                v.root,
                v.id(),
                v.common,
                manifest_in(v.id(), directory, read),
            ) is Err,
            ReplyView::ReceiptRead(directory, read) => receipt_in(
                directory,
                read,
                v.progress->0,
            ) is Err,
            ReplyView::Files(files) => (v.step == Step::Recheck && !same_files(files, v.files)) || (
            v.step == Step::TakeRemains && !all_listed(files, v.files)),
            ReplyView::Leftover(_) => false,
        },
{
}

/// A legacy Store's own files are its database, that one's journal, the Remote
/// lock, and what is directly in its backup directory.
pub proof fn law_which_files_are_a_legacy_stores(name: Seq<char>)
    requires
        name.len() > 0,
        name != "."@,
        name != ".."@,
        forall|k: int| 0 <= k < name.len() ==> name[k] != '/',
    ensures
        belongs(below("backups"@, name)),
        in_backups(below("backups"@, name)),
        belongs(name) ==> name == "tk.db"@ || name == "tk.db-journal"@ || name == "remote.lock"@,
        name == "tk.db"@ || name == "tk.db-journal"@ || name == "remote.lock"@ ==> belongs(name),
{
    reveal_strlit("backups");
    reveal_strlit(".");
    let base = "backups"@;
    assert(base.len() == 7 && base[0] == 'b');
    law_a_name_below_a_path_is_its_last(base, name);
    lemma_plain_name(base);
    lemma_plain_name(name);
    assert(names(base) =~= seq![base]);
    assert(names(below(base, name)) =~= seq![base, name]);
}

proof fn lemma_plain_name(name: Seq<char>)
    requires
        name.len() > 0,
        forall|k: int| 0 <= k < name.len() ==> name[k] != '/',
    ensures
        names(name) == seq![name],
{
    lemma_plain_cut(name);
    let parts = seq![name];
    assert(parts.drop_last() =~= Seq::<Seq<char>>::empty());
    assert(crate::paths::counted(parts.drop_last()) =~= Seq::<Seq<char>>::empty());
    assert(crate::paths::counted(parts) =~= seq![name]);
}

proof fn lemma_plain_cut(name: Seq<char>)
    requires
        forall|k: int| 0 <= k < name.len() ==> name[k] != '/',
    ensures
        crate::paths::cut(name) == seq![name],
    decreases name.len(),
{
    if name.len() > 0 {
        let less = name.drop_last();
        assert forall|k: int| 0 <= k < less.len() implies less[k] != '/' by {
            assert(less[k] == name[k]);
        }
        lemma_plain_cut(less);
        assert(name[name.len() - 1] != '/');
        assert(less.push(name.last()) =~= name);
        assert(crate::paths::cut(name) =~= seq![name]);
    } else {
        assert(name =~= Seq::<char>::empty());
    }
}

/// What an entry of a legacy Store adds to the inventory: a file its own name
/// and fingerprint, the backup directory those of its files. A file that is not
/// the Store's, a database that is not the one held, and a Remote lock that is
/// not held are refused.
pub proof fn law_what_an_entry_adds(held: Held, entry: SourceEntry)
    ensures
        ({
            let name = entry.name@;
            let r = entry_files(held, entry);
            &&& match entry.content {
                Content::File(Ok(bytes)) => {
                    &&& (r is Ok) == (belongs(name) && !(name == "tk.db"@ && held.moved) && !(name
                        == "remote.lock"@ && !held.remote))
                    &&& r is Ok ==> r->Ok_0.len() == 1 && r->Ok_0[0].name == name
                        && r->Ok_0[0].hash == hex(crate::relocation::source::sha256(bytes@))
                },
                _ => true,
            }
            &&& entry.content is File && !belongs(name) ==> r is Err
            &&& entry.content is File && name == "tk.db"@ && held.moved ==> r is Err
            &&& entry.content is File && name == "remote.lock"@ && !held.remote ==> r is Err
            &&& entry.content is Directory && name != "backups"@ ==> r is Err
            &&& entry.content is Other || entry.content is Unreadable ==> r is Err
        }),
{
}

} // verus!
