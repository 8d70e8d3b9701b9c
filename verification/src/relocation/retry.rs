//! Runs of a migration on a disk that nobody else touches: one that was
//! interrupted anywhere is taken up by the next, which ends with the same Store.

use vstd::prelude::*;

use crate::association::{ManifestView, ProbeView, Refusal};
use crate::paths::rooted;
use crate::relocation::cutover::{
    answers, reached, Boundary, CutoverView, LeftoverView, ReplyView, Step,
};
use crate::relocation::metadata::{
    all_belong, backups, FileHashView, ProgressView, ReceiptView,
};
use crate::relocation::source::{all_listed, but_database, found_in};
use crate::select::lemma_filter_contains;

verus! {

/// What stays the same from run to run: where Stores live, as given and as the
/// file system names it, the repository, its remotes, and the legacy files as
/// they were before the first run.
pub struct Home {
    pub root: Seq<char>,
    pub canonical: Seq<char>,
    pub common: Seq<char>,
    pub git_remote_urls: Seq<Seq<char>>,
    pub files: Seq<FileHashView>,
}

/// A Store being put together, or put in its place.
#[verifier::ext_equal]
pub struct Site {
    pub receipt: Option<ReceiptView>,
    /// Whether a receipt was begun and not finished.
    pub torn: bool,
    /// The backups that are copied with the database, once they are: each as it
    /// was in the legacy Store.
    pub copied: Option<Seq<FileHashView>>,
    pub manifest: Option<ManifestView>,
}

/// What a migration finds and changes.
#[verifier::ext_equal]
pub struct Disk {
    /// The legacy files, while their directory is there.
    pub legacy: Option<Seq<FileHashView>>,
    /// The record of the migration.
    pub record: Option<ProgressView>,
    /// The values of the Git pointer.
    pub pointers: Seq<Seq<char>>,
    /// What stands at the staging place of the Store.
    pub staged: Option<Site>,
    /// What stands at its destination.
    pub placed: Option<Site>,
}

/// Whether a file of the name is among them.
pub open spec fn has_name(files: Seq<FileHashView>, name: Seq<char>) -> bool {
    exists|i: int| 0 <= i < files.len() && (#[trigger] files[i]).name == name
}

/// Whether no two of the files have one name.
pub open spec fn names_differ(files: Seq<FileHashView>) -> bool {
    forall|i: int, j: int|
        0 <= i < j < files.len() ==> (#[trigger] files[i]).name != (#[trigger] files[j]).name
}

/// The files but the one of the name.
pub open spec fn without(files: Seq<FileHashView>, name: Seq<char>) -> Seq<FileHashView> {
    files.filter(|file: FileHashView| file.name != name)
}

impl Home {
    /// The repository's path is absolute, and the legacy files are a database and
    /// what may stand beside it.
    pub open spec fn wf(self) -> bool {
        &&& rooted(self.common)
        &&& all_belong(self.files)
        &&& names_differ(self.files)
        &&& has_name(self.files, "tk.db"@)
    }

    /// The start of a run.
    pub open spec fn start(self) -> CutoverView {
        CutoverView {
            step: Step::LockMigration,
            root: self.root,
            common: self.common,
            pointers: Seq::empty(),
            progress: None,
            files: Seq::empty(),
            queue: Seq::empty(),
            resumed: false,
            pointed: false,
        }
    }

    /// The disk before the first run.
    pub open spec fn untouched(self) -> Disk {
        Disk {
            legacy: Some(self.files),
            record: None,
            pointers: Seq::empty(),
            staged: None,
            placed: None,
        }
    }

    /// Whether a record is of a migration at hand.
    pub open spec fn owns(self, p: ProgressView) -> bool {
        p.version == 1 && p.common == self.common && p.root == self.canonical
    }

    /// The receipt of a migration.
    pub open spec fn receipt(self, p: ProgressView) -> ReceiptView {
        ReceiptView { progress: p, files: self.files }
    }

    /// The manifest of the new Store.
    pub open spec fn manifest(self, p: ProgressView) -> ManifestView {
        ManifestView {
            version: 1,
            store_id: p.store_id,
            git_common_dir: self.common,
            previous_git_common_dirs: Seq::empty(),
            git_remote_urls: self.git_remote_urls,
        }
    }

    /// A Store that was copied wholly, the database and every backup, with or
    /// without its receipt.
    pub open spec fn whole(self, p: ProgressView, site: Site) -> bool {
        site.copied == Some(backups(self.files)) && site.manifest == Some(self.manifest(p))
    }
}

/// A staging place at which nothing was written yet.
pub open spec fn blank() -> Site {
    Site { receipt: None, torn: false, copied: None, manifest: None }
}

/// A staging place at which at most a receipt was begun.
pub open spec fn bare(site: Site) -> bool {
    site == Site { torn: site.torn, ..blank() }
}

/// Work that is done where the disk lets it be, and fails otherwise.
pub open spec fn done_where(cond: bool, before: Disk, after: Disk) -> (Disk, ReplyView) {
    if cond {
        (after, ReplyView::Done)
    } else {
        (before, ReplyView::Failed(Refusal::Io(Seq::empty())))
    }
}

/// What a read of a place's receipt replies.
pub open spec fn receipt_reply(site: Option<Site>) -> ReplyView {
    match site {
        None => ReplyView::ReceiptRead(
            ProbeView::Absent(Seq::empty()),
            Err(Refusal::Io(Seq::empty())),
        ),
        Some(site) => ReplyView::ReceiptRead(
            ProbeView::Directory,
            match site.receipt {
                Some(receipt) => Ok(receipt),
                None => Err(Refusal::Io(Seq::empty())),
            },
        ),
    }
}

/// What a read of a place's manifest replies.
pub open spec fn manifest_reply(site: Option<Site>) -> ReplyView {
    match site {
        None => ReplyView::ManifestRead(
            ProbeView::Absent(Seq::empty()),
            Err(Refusal::Io(Seq::empty())),
        ),
        Some(site) => ReplyView::ManifestRead(
            ProbeView::Directory,
            match site.manifest {
                Some(manifest) => Ok(manifest),
                None => Err(Refusal::Io(Seq::empty())),
            },
        ),
    }
}

/// What a look at the staging place replies. Of the entries, only those play a
/// part that stand where there is no receipt.
pub open spec fn leftover_reply(site: Option<Site>) -> ReplyView {
    match site {
        None => ReplyView::Leftover(LeftoverView::Missing),
        Some(site) => ReplyView::Leftover(
            LeftoverView::Directory(
                site.receipt is Some,
                if site.torn {
                    seq![("migration.pending"@, true)]
                } else {
                    Seq::empty()
                },
            ),
        ),
    }
}

/// What a listing of the legacy files replies.
pub open spec fn files_reply(legacy: Option<Seq<FileHashView>>) -> ReplyView {
    match legacy {
        Some(files) => ReplyView::Files(files),
        None => ReplyView::Failed(Refusal::Io(Seq::empty())),
    }
}

/// The work of a step, done wholly: the disk after it, and what it replies.
/// `draw` is the Store ID and the token that a new migration draws.
pub open spec fn work(home: Home, draw: (Seq<char>, Seq<char>), d: Disk, v: CutoverView) -> (
    Disk,
    ReplyView,
) {
    let p = v.progress->0;
    match v.step {
        Step::ReadPointers => (d, ReplyView::Values(d.pointers)),
        Step::ProbeRecord => (d, ReplyView::Present(d.record is Some)),
        Step::ReadProgress => (
            d,
            ReplyView::Progressed(
                match d.record {
                    Some(record) => Ok(record),
                    None => Err(Refusal::Io(Seq::empty())),
                },
                home.canonical,
            ),
        ),
        Step::InspectNewSource | Step::InspectSource | Step::Freeze
        | Step::FreezeRemains => done_where(
            d.legacy is Some && has_name(d.legacy->0, "tk.db"@),
            d,
            d,
        ),
        Step::DrawIds => (d, ReplyView::Drawn(draw.0, draw.1, home.canonical)),
        Step::ProbeTaken => (d, ReplyView::Present(d.staged is Some || d.placed is Some)),
        Step::WriteRecord => (Disk { record: v.progress, ..d }, ReplyView::Done),
        Step::LockStore | Step::LockPlaced | Step::TryStoreLock => done_where(
            d.placed is Some,
            d,
            d,
        ),
        Step::CheckStore | Step::CheckPlaced | Step::CheckPointed => (d, manifest_reply(d.placed)),
        Step::InspectStore => done_where(d.placed is Some && d.placed->0.copied is Some, d, d),
        Step::ProbeLeftovers => (
            d,
            ReplyView::Present(
                d.legacy is Some || (d.placed is Some && d.placed->0.receipt is Some),
            ),
        ),
        Step::ReadReceipt | Step::ReadStoreReceipt => (d, receipt_reply(d.placed)),
        Step::TakeInventory | Step::Recheck | Step::TakeRemains => (d, files_reply(d.legacy)),
        Step::ProbeStaged => (d, leftover_reply(d.staged)),
        Step::ReadStagedReceipt => (d, receipt_reply(d.staged)),
        Step::ClearStaged | Step::RemoveStaged => done_where(
            d.staged is Some,
            d,
            Disk { staged: None, ..d },
        ),
        Step::ProbeStore => (d, ReplyView::Present(d.placed is Some)),
        Step::RemoveStore => done_where(d.placed is Some, d, Disk { placed: None, ..d }),
        Step::CreateStage => done_where(
            d.staged is None,
            d,
            Disk { staged: Some(blank()), ..d },
        ),
        Step::WriteReceipt => done_where(
            d.staged is Some,
            d,
            Disk {
                staged: Some(
                    Site {
                        receipt: Some(ReceiptView { progress: p, files: v.files }),
                        torn: false,
                        ..d.staged->0
                    },
                ),
                ..d
            },
        ),
        Step::Snapshot => done_where(
            d.staged is Some && d.legacy is Some,
            d,
            Disk { staged: Some(Site { copied: Some(backups(v.files)), ..d.staged->0 }), ..d },
        ),
        Step::InspectImages => done_where(d.staged is Some && d.staged->0.copied is Some, d, d),
        Step::Publish => done_where(
            d.staged is Some,
            d,
            Disk {
                staged: Some(Site { manifest: Some(home.manifest(p)), ..d.staged->0 }),
                ..d
            },
        ),
        Step::MoveIntoPlace => done_where(
            d.staged is Some && d.placed is None,
            d,
            Disk { staged: None, placed: d.staged, ..d },
        ),
        Step::InstallPointer => (Disk { pointers: seq![p.store_id], ..d }, ReplyView::Done),
        Step::ProbeSource => (
            d,
            ReplyView::Found(
                if d.legacy is Some {
                    ProbeView::Directory
                } else {
                    ProbeView::Absent(Seq::empty())
                },
            ),
        ),
        Step::ProbeDatabase => (
            d,
            ReplyView::Present(d.legacy is Some && has_name(d.legacy->0, "tk.db"@)),
        ),
        Step::ListRemains => (
            d,
            match d.legacy {
                Some(files) => ReplyView::Values(files.map_values(|file: FileHashView| file.name)),
                None => ReplyView::Failed(Refusal::Io(Seq::empty())),
            },
        ),
        Step::RemoveFile => done_where(
            d.legacy is Some && has_name(d.legacy->0, v.queue[0]),
            d,
            Disk { legacy: Some(without(d.legacy->0, v.queue[0])), ..d },
        ),
        Step::RemoveDatabase => done_where(
            d.legacy is Some,
            d,
            Disk { legacy: Some(without(d.legacy->0, "tk.db"@)), ..d },
        ),
        Step::RemoveSource => done_where(
            d.legacy is Some && d.legacy->0.len() == 0,
            d,
            Disk { legacy: None, ..d },
        ),
        Step::RemoveMarker => done_where(
            d.placed is Some,
            d,
            Disk { placed: Some(Site { receipt: None, ..d.placed->0 }), ..d },
        ),
        Step::RemoveRecord => done_where(d.record is Some, d, Disk { record: None, ..d }),
        _ => (d, ReplyView::Done),
    }
}

/// The disk after at most `n` steps of a run, and what they replied.
pub open spec fn run(home: Home, draw: (Seq<char>, Seq<char>), d: Disk, n: nat) -> (
    Disk,
    Seq<ReplyView>,
)
    decreases n,
{
    if n == 0 {
        (d, Seq::empty())
    } else {
        let (before, replies) = run(home, draw, d, (n - 1) as nat);
        match reached(home.start(), replies) {
            Ok(v) => if v.step == Step::Complete {
                (before, replies)
            } else {
                let (after, reply) = work(home, draw, before, v);
                (after, replies.push(reply))
            },
            Err(_) => (before, replies),
        }
    }
}

/// Where a run stands after at most `n` steps.
pub open spec fn stands(home: Home, draw: (Seq<char>, Seq<char>), d: Disk, n: nat) -> Result<
    CutoverView,
    Refusal,
> {
    reached(home.start(), run(home, draw, d, n).1)
}

// ---- What a run leaves behind -------------------------------------------

/// Whether what is left of the legacy files can still be removed: each is as it
/// was copied, and the database is the last.
pub open spec fn removable(home: Home, left: Seq<FileHashView>) -> bool {
    &&& all_listed(left, home.files)
    &&& names_differ(left)
    &&& left.len() == 0 || has_name(left, "tk.db"@)
}

/// No migration was recorded, and nothing changed.
pub open spec fn unrecorded_disk(home: Home, d: Disk) -> bool {
    &&& d.record is None
    &&& d.pointers.len() == 0
    &&& d.legacy == Some(home.files)
    &&& d.staged is None
    &&& d.placed is None
}

/// A migration was recorded; the pointer is not installed, the legacy files are
/// all there, and what was staged or placed is told by its receipt.
pub open spec fn copying_disk(home: Home, d: Disk) -> bool {
    &&& d.record is Some
    &&& home.owns(d.record->0)
    &&& d.pointers.len() == 0
    &&& d.legacy == Some(home.files)
    &&& d.staged is Some ==> bare(d.staged->0) || d.staged->0.receipt == Some(
        home.receipt(d.record->0),
    )
    &&& d.placed is Some ==> d.placed->0.receipt == Some(home.receipt(d.record->0))
}

/// A migration was recorded and the pointer is installed: the copy is whole and
/// in its place, and keeps its receipt as long as legacy files are left.
pub open spec fn cleaning_disk(home: Home, d: Disk) -> bool {
    &&& d.record is Some
    &&& home.owns(d.record->0)
    &&& d.pointers == seq![d.record->0.store_id]
    &&& d.staged is None
    &&& d.placed is Some
    &&& home.whole(d.record->0, d.placed->0)
    &&& d.placed->0.receipt is Some ==> d.placed->0.receipt == Some(home.receipt(d.record->0))
    &&& d.legacy is Some ==> d.placed->0.receipt is Some && removable(home, d.legacy->0)
}

/// A disk that a run can start from.
pub open spec fn resumable(home: Home, d: Disk) -> bool {
    unrecorded_disk(home, d) || copying_disk(home, d) || cleaning_disk(home, d)
}

/// A disk that a migration to the Store has left for good: the pointer names
/// the Store, the copy is in its place with every backup that there was, and the legacy files, the
/// receipt and the record are gone.
pub open spec fn migrated(home: Home, id: Seq<char>, d: Disk) -> bool {
    &&& d.pointers == seq![id]
    &&& d.legacy is None
    &&& d.record is None
    &&& d.staged is None
    &&& d.placed is Some
    &&& d.placed->0.copied == Some(backups(home.files))
    &&& d.placed->0.receipt is None
    &&& d.placed->0.manifest is Some
    &&& d.placed->0.manifest->0.store_id == id
    &&& d.placed->0.manifest->0.git_common_dir == home.common
}

/// Whether the files still to remove are files that are left, each once, and
/// with the database all that are left.
pub open spec fn queue_fits(left: Seq<FileHashView>, queue: Seq<Seq<char>>) -> bool {
    &&& forall|i: int| 0 <= i < queue.len() ==> has_name(left, #[trigger] queue[i])
    &&& forall|i: int| 0 <= i < queue.len() ==> #[trigger] queue[i] != "tk.db"@
    &&& forall|i: int, j: int|
        0 <= i < j < queue.len() ==> #[trigger] queue[i] != #[trigger] queue[j]
    &&& forall|i: int|
        0 <= i < left.len() ==> (#[trigger] left[i]).name == "tk.db"@ || queue.contains(
            left[i].name,
        )
}

/// A copying run whose staging place and destination are as given.
spec fn copying(home: Home, d: Disk, v: CutoverView) -> bool {
    &&& copying_disk(home, d)
    &&& v.progress == d.record
    &&& v.pointers.len() == 0
    &&& !v.pointed
    &&& !v.resumed
}

spec fn own_site(home: Home, d: Disk, site: Option<Site>) -> bool {
    site is Some && site->0.receipt == Some(home.receipt(d.record->0))
}

/// A cleaning run.
spec fn cleaning(home: Home, d: Disk, v: CutoverView) -> bool {
    &&& cleaning_disk(home, d)
    &&& v.progress == d.record
    &&& v.pointed
}

/// A cleaning run that knows what was copied.
spec fn sweeping(home: Home, d: Disk, v: CutoverView) -> bool {
    &&& cleaning(home, d, v)
    &&& v.files == home.files
    &&& d.placed->0.receipt is Some
}

/// What holds of a run and the disk at every step.
spec fn together(home: Home, d: Disk, v: CutoverView) -> bool {
    let blank_stage = d.staged == Some(blank());
    let whole_place = d.placed is Some && home.whole(d.record->0, d.placed->0);
    &&& v.wf()
    &&& v.root == home.root
    &&& v.common == home.common
    &&& match v.step {
        Step::LockMigration | Step::LockRemote | Step::ReadPointers => {
            resumable(home, d) && v.progress is None && v.pointers.len() == 0 && !v.pointed
                && !v.resumed
        },
        Step::ProbeRecord => {
            resumable(home, d) && v.progress is None && v.pointers == d.pointers && !v.pointed
                && !v.resumed
        },
        Step::ReadProgress => {
            resumable(home, d) && d.record is Some && v.progress is None && v.pointers
                == d.pointers && !v.pointed && !v.resumed
        },
        Step::InspectNewSource | Step::DrawIds => {
            unrecorded_disk(home, d) && v.progress is None && v.pointers.len() == 0 && !v.pointed
                && !v.resumed
        },
        Step::ProbeTaken | Step::WriteRecord => {
            unrecorded_disk(home, d) && home.owns(v.progress->0) && v.pointers.len() == 0
                && !v.pointed && !v.resumed
        },
        Step::Observe(Boundary::Recorded) => {
            (copying_disk(home, d) || cleaning_disk(home, d)) && v.progress == d.record
                && v.pointers == d.pointers && !v.pointed && !v.resumed
        },
        Step::LockStore | Step::CheckStore | Step::InspectStore | Step::ProbeLeftovers => {
            cleaning(home, d, v) && v.resumed
        },
        Step::ReadReceipt => cleaning(home, d, v) && v.resumed && d.placed->0.receipt is Some,
        Step::InspectSource | Step::Freeze | Step::TakeInventory => copying(home, d, v),
        Step::ProbeStaged => copying(home, d, v) && v.files == home.files,
        Step::ClearStaged => copying(home, d, v) && v.files == home.files && d.staged is Some,
        Step::ReadStagedReceipt | Step::RemoveStaged => {
            copying(home, d, v) && v.files == home.files && own_site(home, d, d.staged)
        },
        Step::ProbeStore => copying(home, d, v) && v.files == home.files && d.staged is None,
        Step::ReadStoreReceipt | Step::TryStoreLock | Step::RemoveStore => {
            copying(home, d, v) && v.files == home.files && d.staged is None && own_site(
                home,
                d,
                d.placed,
            )
        },
        Step::CreateStage => {
            copying(home, d, v) && v.files == home.files && d.staged is None && d.placed is None
        },
        Step::Observe(Boundary::Reserved) | Step::WriteReceipt => {
            copying(home, d, v) && v.files == home.files && blank_stage && d.placed is None
        },
        Step::Snapshot => {
            copying(home, d, v) && v.files == home.files && own_site(home, d, d.staged) && d.placed
                is None
        },
        Step::Observe(Boundary::Staged) | Step::InspectImages | Step::Publish => {
            copying(home, d, v) && v.files == home.files && own_site(home, d, d.staged) && d.placed
                is None && d.staged->0.copied == Some(backups(home.files))
        },
        Step::Observe(Boundary::Validated) | Step::MoveIntoPlace => {
            copying(home, d, v) && v.files == home.files && own_site(home, d, d.staged) && d.placed
                is None && home.whole(d.record->0, d.staged->0)
        },
        Step::CheckPlaced | Step::LockPlaced | Step::Observe(Boundary::Published) | Step::Recheck
        | Step::InstallPointer => {
            copying(home, d, v) && v.files == home.files && d.staged is None && own_site(
                home,
                d,
                d.placed,
            ) && whole_place
        },
        Step::CheckPointed | Step::Observe(Boundary::Pointed) => {
            sweeping(home, d, v) && !v.resumed
        },
        Step::FlushPointer | Step::ReleaseSource | Step::ProbeSource => sweeping(home, d, v),
        Step::LockRemains | Step::ProbeDatabase => sweeping(home, d, v) && d.legacy is Some,
        Step::FreezeRemains | Step::TakeRemains => {
            sweeping(home, d, v) && d.legacy is Some && has_name(d.legacy->0, "tk.db"@)
        },
        Step::ListRemains => sweeping(home, d, v) && d.legacy is Some && d.legacy->0.len() == 0,
        Step::Observe(Boundary::Cleanup) | Step::ReleaseRemains | Step::RemoveFile | Step::Observe(
            Boundary::CleanedFile,
        ) => {
            sweeping(home, d, v) && d.legacy is Some && queue_fits(d.legacy->0, v.queue)
        },
        Step::RemoveBackups | Step::RemoveDatabase => {
            sweeping(home, d, v) && d.legacy is Some && v.queue.len() == 0 && queue_fits(
                d.legacy->0,
                v.queue,
            )
        },
        Step::RemoveSource => sweeping(home, d, v) && d.legacy is Some && d.legacy->0.len() == 0,
        Step::Observe(Boundary::Removed) | Step::RemoveMarker => {
            cleaning(home, d, v) && d.legacy is None
        },
        Step::Observe(Boundary::Finished) | Step::RemoveRecord => {
            cleaning(home, d, v) && d.legacy is None && d.placed->0.receipt is None
        },
        Step::Complete => v.progress is Some && migrated(home, v.id(), d),
    }
}

/// A run that has not ended leaves a disk that another can start from.
proof fn lemma_resumable(home: Home, d: Disk, v: CutoverView)
    requires
        together(home, d, v),
        v.step != Step::Complete,
    ensures
        resumable(home, d),
{
}

// ---- The files ----------------------------------------------------------

/// Files of different names are listed by themselves.
proof fn lemma_lists_itself(files: Seq<FileHashView>)
    requires
        names_differ(files),
    ensures
        all_listed(files, files),
    decreases files.len(),
{
    if files.len() > 0 {
        let rest = files.drop_last();
        lemma_lists_itself(rest);
        assert forall|i: int| 0 <= i < files.len() implies found_in(
            files,
            (#[trigger] files[i]).name,
        ) == Some(files[i].hash) by {
            if i < rest.len() {
                assert(rest[i] == files[i]);
                assert(files[i].name != files[files.len() - 1].name);
                assert(found_in(rest, rest[i].name) == Some(rest[i].hash));
            }
        }
    }
}

/// Files of different names still have different names when some are gone.
proof fn lemma_names_still_differ(files: Seq<FileHashView>, cond: spec_fn(FileHashView) -> bool)
    requires
        names_differ(files),
    ensures
        names_differ(files.filter(cond)),
    decreases files.len(),
{
    reveal(Seq::filter);
    if files.len() > 0 {
        let rest = files.drop_last();
        lemma_names_still_differ(rest, cond);
        lemma_filter_contains(rest, cond);
        let kept = rest.filter(cond);
        if cond(files.last()) {
            let all = kept.push(files.last());
            assert forall|i: int, j: int| 0 <= i < j < all.len() implies (
            #[trigger] all[i]).name != (#[trigger] all[j]).name by {
                if j == kept.len() {
                    assert(rest.contains(kept[i]));
                    let k = choose|k: int| 0 <= k < rest.len() && rest[k] == kept[i];
                    assert(files[k].name != files[files.len() - 1].name);
                }
            }
        }
    }
}

/// What is left when a file is gone.
proof fn lemma_without(home: Home, left: Seq<FileHashView>, name: Seq<char>)
    requires
        all_listed(left, home.files),
        names_differ(left),
    ensures
        all_listed(without(left, name), home.files),
        names_differ(without(left, name)),
        forall|other: Seq<char>| #[trigger]
            has_name(left, other) && other != name ==> has_name(without(left, name), other),
        forall|i: int|
            0 <= i < without(left, name).len() ==> (#[trigger] without(left, name)[i]).name != name
                && left.contains(without(left, name)[i]),
{
    let cond = |file: FileHashView| file.name != name;
    let rest = without(left, name);
    lemma_names_still_differ(left, cond);
    lemma_filter_contains(left, cond);
    assert forall|i: int| 0 <= i < rest.len() implies found_in(
        home.files,
        (#[trigger] rest[i]).name,
    ) == Some(rest[i].hash) by {
        assert(left.contains(rest[i]));
    }
    assert forall|other: Seq<char>| #[trigger]
        has_name(left, other) && other != name implies has_name(rest, other) by {
        let k = choose|k: int| 0 <= k < left.len() && (#[trigger] left[k]).name == other;
        assert(cond(left[k]));
        assert(rest.contains(left[k]));
        let at = choose|at: int| 0 <= at < rest.len() && rest[at] == left[k];
        assert(rest[at].name == other);
    }
}

/// The files that a cleanup removes one by one are all but the database.
proof fn lemma_queue(left: Seq<FileHashView>)
    requires
        names_differ(left),
    ensures
        queue_fits(left, but_database(left)),
    decreases left.len(),
{
    if left.len() > 0 {
        let rest = left.drop_last();
        let last = left.last();
        lemma_queue(rest);
        let before = but_database(rest);
        let queue = but_database(left);
        assert forall|name: Seq<char>| #[trigger] has_name(rest, name) implies has_name(
            left,
            name,
        ) && name != last.name by {
            let k = choose|k: int| 0 <= k < rest.len() && (#[trigger] rest[k]).name == name;
            assert(left[k].name == name);
            assert(left[k].name != left[left.len() - 1].name);
        }
        assert(left[left.len() - 1] == last);
        assert(has_name(left, last.name));
        assert forall|i: int| 0 <= i < left.len() implies (#[trigger] left[i]).name == "tk.db"@
            || queue.contains(left[i].name) by {
            if i < rest.len() {
                assert(rest[i] == left[i]);
                if left[i].name != "tk.db"@ {
                    let k = choose|k: int| 0 <= k < before.len() && before[k] == left[i].name;
                    assert(queue[k] == left[i].name);
                }
            } else if last.name != "tk.db"@ {
                assert(queue[before.len() as int] == last.name);
            }
        }
        assert forall|i: int| 0 <= i < queue.len() implies has_name(left, #[trigger] queue[i]) by {
            if i < before.len() {
                assert(queue[i] == before[i]);
                assert(has_name(rest, before[i]));
            }
        }
        assert forall|i: int, j: int| 0 <= i < j < queue.len() implies #[trigger] queue[i]
            != #[trigger] queue[j] by {
            assert(queue[i] == before[i]);
            assert(has_name(rest, before[i]));
            if j < before.len() {
                assert(queue[j] == before[j]);
            }
        }
    }
}

/// A file of the queue is gone, and so is its place in the queue.
proof fn lemma_dequeue(home: Home, left: Seq<FileHashView>, queue: Seq<Seq<char>>)
    requires
        removable(home, left),
        queue_fits(left, queue),
        queue.len() > 0,
    ensures
        removable(home, without(left, queue[0])),
        queue_fits(without(left, queue[0]), queue.skip(1)),
{
    let name = queue[0];
    let rest = without(left, name);
    let later = queue.skip(1);
    lemma_without(home, left, name);
    assert(has_name(left, name));
    assert(has_name(left, "tk.db"@));
    assert forall|i: int| 0 <= i < later.len() implies has_name(rest, #[trigger] later[i])
        && later[i] != "tk.db"@ by {
        assert(later[i] == queue[i + 1]);
        assert(has_name(left, queue[i + 1]));
    }
    assert forall|i: int, j: int| 0 <= i < j < later.len() implies #[trigger] later[i]
        != #[trigger] later[j] by {
        assert(later[i] == queue[i + 1] && later[j] == queue[j + 1]);
    }
    assert forall|i: int| 0 <= i < rest.len() implies (#[trigger] rest[i]).name == "tk.db"@
        || later.contains(rest[i].name) by {
        let k = choose|k: int| 0 <= k < left.len() && left[k] == rest[i];
        assert(left[k].name == rest[i].name);
        if rest[i].name != "tk.db"@ {
            let at = choose|at: int| 0 <= at < queue.len() && queue[at] == rest[i].name;
            assert(later[at - 1] == rest[i].name);
        }
    }
}

/// With nothing in the queue, the database is all that is left.
proof fn lemma_only_database(home: Home, left: Seq<FileHashView>)
    requires
        removable(home, left),
        queue_fits(left, Seq::empty()),
    ensures
        without(left, "tk.db"@).len() == 0,
{
    lemma_without(home, left, "tk.db"@);
    let rest = without(left, "tk.db"@);
    if rest.len() > 0 {
        assert(left.contains(rest[0]));
        let k = choose|k: int| 0 <= k < left.len() && left[k] == rest[0];
        assert(left[k].name == "tk.db"@ || Seq::<Seq<char>>::empty().contains(left[k].name));
    }
}

// ---- Steps --------------------------------------------------------------

/// How far a step is from the end.
spec fn rank(step: Step) -> int {
    match step {
        Step::LockMigration => 60,
        Step::LockRemote => 59,
        Step::ReadPointers => 58,
        Step::ProbeRecord => 57,
        Step::ReadProgress => 56,
        Step::InspectNewSource => 56,
        Step::DrawIds => 55,
        Step::ProbeTaken => 54,
        Step::WriteRecord => 53,
        Step::Observe(Boundary::Recorded) => 52,
        Step::InspectSource => 51,
        Step::Freeze => 50,
        Step::TakeInventory => 49,
        Step::ProbeStaged => 48,
        Step::ClearStaged => 47,
        Step::ReadStagedReceipt => 47,
        Step::RemoveStaged => 46,
        Step::ProbeStore => 45,
        Step::ReadStoreReceipt => 44,
        Step::TryStoreLock => 43,
        Step::RemoveStore => 42,
        Step::CreateStage => 41,
        Step::Observe(Boundary::Reserved) => 40,
        Step::WriteReceipt => 39,
        Step::Snapshot => 38,
        Step::Observe(Boundary::Staged) => 37,
        Step::InspectImages => 36,
        Step::Publish => 35,
        Step::Observe(Boundary::Validated) => 34,
        Step::MoveIntoPlace => 33,
        Step::CheckPlaced => 32,
        Step::LockPlaced => 31,
        Step::Observe(Boundary::Published) => 30,
        Step::Recheck => 29,
        Step::InstallPointer => 28,
        Step::CheckPointed => 27,
        Step::LockStore => 31,
        Step::CheckStore => 30,
        Step::InspectStore => 29,
        Step::ProbeLeftovers => 28,
        Step::ReadReceipt => 27,
        Step::FlushPointer => 26,
        Step::Observe(Boundary::Pointed) => 25,
        Step::ReleaseSource => 24,
        Step::ProbeSource => 23,
        Step::LockRemains => 22,
        Step::ProbeDatabase => 21,
        Step::FreezeRemains => 20,
        Step::TakeRemains => 19,
        Step::ListRemains => 19,
        Step::Observe(Boundary::Cleanup) => 18,
        Step::ReleaseRemains => 17,
        Step::RemoveFile => 16,
        Step::Observe(Boundary::CleanedFile) => 16,
        Step::RemoveBackups => 15,
        Step::RemoveDatabase => 14,
        Step::RemoveSource => 13,
        Step::Observe(Boundary::Removed) => 12,
        Step::RemoveMarker => 11,
        Step::Observe(Boundary::Finished) => 10,
        Step::RemoveRecord => 9,
        Step::Complete => 0,
    }
}

/// How far the removal of files is from its end.
spec fn pending(v: CutoverView) -> int {
    2 * v.queue.len() + if v.step == Step::RemoveFile {
        0int
    } else {
        1int
    }
}

/// What one step does to a run and its disk.
spec fn stepped(home: Home, d: Disk, v: CutoverView, after: Disk, w: CutoverView) -> bool {
    &&& together(home, after, w)
    &&& rank(w.step) < rank(v.step) || (rank(w.step) == rank(v.step) && pending(w) < pending(v))
    &&& d.record is Some && w.step != Step::Complete ==> after.record == d.record
    &&& w.progress is Some ==> if v.progress is Some {
        w.progress == v.progress
    } else {
        d.record is Some ==> w.progress == d.record
    }
}

/// A step of a run finds what it needs, and leads on.
spec fn works(home: Home, draw: (Seq<char>, Seq<char>), d: Disk, v: CutoverView) -> bool {
    let (after, reply) = work(home, draw, d, v);
    &&& answers(v.step, reply)
    &&& v.after(reply) is Ok
    &&& stepped(home, d, v, after, v.after(reply)->Ok_0)
}

/// The steps up to the record.
proof fn lemma_recording_works(home: Home, draw: (Seq<char>, Seq<char>), d: Disk, v: CutoverView)
    requires
        home.wf(),
        together(home, d, v),
        52 <= rank(v.step),
    ensures
        works(home, draw, d, v),
{
    if v.step == Step::WriteRecord {
        assert(v.pointers =~= d.pointers);
    }
}

/// The steps that clear what an earlier run left.
proof fn lemma_clearing_works(home: Home, draw: (Seq<char>, Seq<char>), d: Disk, v: CutoverView)
    requires
        home.wf(),
        together(home, d, v),
        42 <= rank(v.step) < 52,
    ensures
        works(home, draw, d, v),
{
}

/// The steps that copy, and those that find the copy in its place.
proof fn lemma_copying_works(home: Home, draw: (Seq<char>, Seq<char>), d: Disk, v: CutoverView)
    requires
        home.wf(),
        together(home, d, v),
        28 <= rank(v.step) < 42,
    ensures
        works(home, draw, d, v),
{
    if v.step == Step::InstallPointer {
        lemma_lists_itself(home.files);
    }
}

/// The steps that look at what is left.
proof fn lemma_sweeping_works(home: Home, draw: (Seq<char>, Seq<char>), d: Disk, v: CutoverView)
    requires
        home.wf(),
        together(home, d, v),
        17 <= rank(v.step) < 28,
    ensures
        works(home, draw, d, v),
{
    if v.step == Step::TakeRemains {
        lemma_queue(d.legacy->0);
    }
}

/// The steps that remove what is left.
proof fn lemma_removing_works(home: Home, draw: (Seq<char>, Seq<char>), d: Disk, v: CutoverView)
    requires
        home.wf(),
        together(home, d, v),
        0 < rank(v.step) < 17,
    ensures
        works(home, draw, d, v),
{
    if v.step == Step::RemoveFile {
        lemma_dequeue(home, d.legacy->0, v.queue);
    } else if v.step == Step::RemoveDatabase {
        assert(v.queue =~= Seq::empty());
        lemma_only_database(home, d.legacy->0);
        lemma_without(home, d.legacy->0, "tk.db"@);
    }
}

proof fn lemma_works(home: Home, draw: (Seq<char>, Seq<char>), d: Disk, v: CutoverView)
    requires
        home.wf(),
        together(home, d, v),
        v.step != Step::Complete,
    ensures
        works(home, draw, d, v),
{
    if 52 <= rank(v.step) {
        lemma_recording_works(home, draw, d, v);
    } else if 42 <= rank(v.step) {
        lemma_clearing_works(home, draw, d, v);
    } else if 28 <= rank(v.step) {
        lemma_copying_works(home, draw, d, v);
    } else if 17 <= rank(v.step) {
        lemma_sweeping_works(home, draw, d, v);
    } else {
        lemma_removing_works(home, draw, d, v);
    }
}

// ---- Laws ---------------------------------------------------------------

/// What holds of a run after any number of steps.
proof fn lemma_run(home: Home, draw: (Seq<char>, Seq<char>), d: Disk, n: nat)
    requires
        home.wf(),
        resumable(home, d),
    ensures
        stands(home, draw, d, n) is Ok,
        together(home, run(home, draw, d, n).0, stands(home, draw, d, n)->Ok_0),
        ({
            let v = stands(home, draw, d, n)->Ok_0;
            &&& d.record is Some && v.progress is Some ==> v.progress == d.record
            &&& d.record is Some && v.step != Step::Complete ==> run(home, draw, d, n).0.record
                == d.record
        }),
    decreases n,
{
    if n == 0 {
        assert(run(home, draw, d, 0).1.len() == 0);
    } else {
        let m = (n - 1) as nat;
        lemma_run(home, draw, d, m);
        let (before, replies) = run(home, draw, d, m);
        let v = reached(home.start(), replies)->Ok_0;
        if v.step != Step::Complete {
            lemma_works(home, draw, before, v);
            let (after, reply) = work(home, draw, before, v);
            assert(replies.push(reply).drop_last() =~= replies);
            assert(replies.push(reply).last() == reply);
        }
    }
}

/// A run gets to its end.
proof fn lemma_ends(home: Home, draw: (Seq<char>, Seq<char>), d: Disk, n: nat) -> (m: nat)
    requires
        home.wf(),
        resumable(home, d),
    ensures
        stands(home, draw, d, m) is Ok,
        stands(home, draw, d, m)->Ok_0.step == Step::Complete,
    decreases
            rank(stands(home, draw, d, n)->Ok_0.step),
            pending(stands(home, draw, d, n)->Ok_0),
{
    lemma_run(home, draw, d, n);
    let (before, replies) = run(home, draw, d, n);
    let v = reached(home.start(), replies)->Ok_0;
    if v.step == Step::Complete {
        n
    } else {
        lemma_works(home, draw, before, v);
        let (after, reply) = work(home, draw, before, v);
        assert(run(home, draw, d, n + 1) == (after, replies.push(reply)));
        assert(replies.push(reply).drop_last() =~= replies);
        assert(replies.push(reply).last() == reply);
        lemma_ends(home, draw, d, n + 1)
    }
}

/// A run that is stopped anywhere, at a boundary or at any other step, leaves a
/// disk that the next run can start from. Until the pointer is installed every
/// legacy file is as it was; a record that was there stays; and one that is there
/// is that of the run. One that is stopped at a boundary leaves a record. The
/// next run can also start where this one was stopped while it wrote the receipt.
pub proof fn law_a_stopped_run_can_be_taken_up(
    home: Home,
    draw: (Seq<char>, Seq<char>),
    d: Disk,
    n: nat,
)
    requires
        home.wf(),
        resumable(home, d),
        stands(home, draw, d, n) is Ok ==> stands(home, draw, d, n)->Ok_0.step != Step::Complete,
    ensures
        ({
            let left = run(home, draw, d, n).0;
            &&& stands(home, draw, d, n) is Ok
            &&& resumable(home, left)
            &&& left.pointers.len() == 0 ==> left.legacy == Some(home.files)
            &&& d.record is Some ==> left.record == d.record
            &&& left.record is Some && stands(home, draw, d, n)->Ok_0.progress is Some
                ==> left.record == stands(home, draw, d, n)->Ok_0.progress
            &&& stands(home, draw, d, n)->Ok_0.step is Observe ==> left.record is Some
                && left.record == stands(home, draw, d, n)->Ok_0.progress
            &&& stands(home, draw, d, n)->Ok_0.step == Step::WriteReceipt ==> resumable(
                home,
                (Disk { staged: Some(Site { torn: true, ..left.staged->0 }), ..left }),
            )
        }),
{
    lemma_run(home, draw, d, n);
    lemma_resumable(home, run(home, draw, d, n).0, stands(home, draw, d, n)->Ok_0);
}

/// A run that nothing disturbs ends: the pointer names the Store of the record
/// that was there, where one was; the Store's copy is whole and in its place; and
/// the legacy files, the receipt and the record are gone.
pub proof fn law_an_undisturbed_run_ends(home: Home, draw: (Seq<char>, Seq<char>), d: Disk) -> (n:
    nat)
    requires
        home.wf(),
        resumable(home, d),
    ensures
        stands(home, draw, d, n) is Ok,
        ({
            let v = stands(home, draw, d, n)->Ok_0;
            &&& v.step == Step::Complete
            &&& v.progress is Some
            &&& v.root == home.root
            &&& d.record is Some ==> v.progress == d.record
            &&& migrated(home, v.id(), run(home, draw, d, n).0)
        }),
{
    let n = lemma_ends(home, draw, d, 0);
    lemma_run(home, draw, d, n);
    n
}

/// A second run finishes what a first began, wherever that was stopped: where the
/// first had recorded its Store, as it has at every boundary, the second ends with
/// the same Store, below the same directory.
pub proof fn law_a_second_run_finishes_the_first(
    home: Home,
    first: (Seq<char>, Seq<char>),
    stopped: nat,
    second: (Seq<char>, Seq<char>),
) -> (n: nat)
    requires
        home.wf(),
        stands(home, first, home.untouched(), stopped) is Ok
            ==> stands(home, first, home.untouched(), stopped)->Ok_0.step != Step::Complete,
    ensures
        ({
            let left = run(home, first, home.untouched(), stopped).0;
            let v = stands(home, second, left, n)->Ok_0;
            &&& stands(home, second, left, n) is Ok
            &&& v.step == Step::Complete
            &&& v.progress is Some
            &&& v.root == home.root
            &&& left.record is Some ==> v.id() == left.record->0.store_id
            &&& stands(home, first, home.untouched(), stopped)->Ok_0.step is Observe ==> v.id()
                == stands(home, first, home.untouched(), stopped)->Ok_0.id()
            &&& migrated(home, v.id(), run(home, second, left, n).0)
        }),
{
    let fresh = home.untouched();
    law_a_stopped_run_can_be_taken_up(home, first, fresh, stopped);
    law_an_undisturbed_run_ends(home, second, run(home, first, fresh, stopped).0)
}

} // verus!
