//! The cutover from a legacy Store, step by step.
//!
//! Each [`Step`] is one piece of work on files, Git or databases that the caller
//! performs; what came of it goes to [`Cutover::advance`], which says what comes
//! next. Every step can be repeated after an interruption. The legacy data is
//! not touched before the Git pointer names the copy.

use vstd::prelude::*;

use crate::association::{
    manifest_in, manifest_read, validate, validated, Association, Error, Evidence, Manifest,
    ManifestView, Probe, ProbeView, Refusal, StoreId,
};
use crate::paths::{below, join, spread};
use crate::relocation::metadata::{
    fault, hashes, progress_read, read_progress, read_receipt, receipt_in, receipt_read, recorded,
    FileHash, FileHashView, Progress, ProgressView, Receipt, ReceiptView,
};
use crate::relocation::source::{
    all_listed, are_listed, are_same, but_database, removals, same_files,
};
use crate::text::same_text;

verus! {

/// Durable boundaries of a migration.
#[derive(Clone, Copy, Debug, PartialEq, Eq, Structural)]
pub enum Boundary {
    Recorded,
    Reserved,
    Staged,
    Validated,
    Published,
    Pointed,
    Cleanup,
    CleanedFile,
    Removed,
    Finished,
}

/// A piece of work for the caller.
#[derive(Clone, Copy, Debug, PartialEq, Eq, Structural)]
pub enum Step {
    /// Lock migrations of this repository.
    LockMigration,
    /// Lock the legacy Store against Remote work, where it has such a lock.
    LockRemote,
    /// Read the pointer values.
    ReadPointers,
    /// Look for the record of a migration.
    ProbeRecord,
    /// Read that record.
    ReadProgress,
    /// Inspect the legacy database before a new migration.
    InspectNewSource,
    /// Draw the Store ID and the token of a new migration.
    DrawIds,
    /// Look whether the destination or the staging place is taken.
    ProbeTaken,
    /// Write the record.
    WriteRecord,
    /// A boundary was reached.
    Observe(Boundary),
    /// Lock the Store that the pointer names.
    LockStore,
    /// Read its manifest.
    CheckStore,
    /// Inspect its database.
    InspectStore,
    /// Look for legacy data and for a receipt.
    ProbeLeftovers,
    /// Read that receipt.
    ReadReceipt,
    /// Inspect the legacy database.
    InspectSource,
    /// Lock it and end its write-ahead log.
    Freeze,
    /// List the legacy files.
    TakeInventory,
    /// Look at the staging place.
    ProbeStaged,
    /// Clear a staging place that holds nothing but an unfinished receipt.
    ClearStaged,
    /// Read the receipt of an earlier attempt in the staging place.
    ReadStagedReceipt,
    /// Remove that attempt.
    RemoveStaged,
    /// Look at the destination.
    ProbeStore,
    /// Read the receipt of an earlier attempt there.
    ReadStoreReceipt,
    /// Make sure that nobody uses it.
    TryStoreLock,
    /// Remove that attempt.
    RemoveStore,
    /// Create the staging place.
    CreateStage,
    /// Write the receipt.
    WriteReceipt,
    /// Copy the database and the backups.
    Snapshot,
    /// Inspect the copies.
    InspectImages,
    /// Write the manifest.
    Publish,
    /// Move the staging place to the destination.
    MoveIntoPlace,
    /// Read the manifest at the destination.
    CheckPlaced,
    /// Lock the destination.
    LockPlaced,
    /// List the legacy files once more.
    Recheck,
    /// Install the Git pointer.
    InstallPointer,
    /// Read the manifest once more.
    CheckPointed,
    /// Make the pointer durable.
    FlushPointer,
    /// Let go of the legacy database and its lock.
    ReleaseSource,
    /// Look at the legacy data.
    ProbeSource,
    /// Lock what is left of it.
    LockRemains,
    /// Look whether its database is left.
    ProbeDatabase,
    /// Lock that database.
    FreezeRemains,
    /// List the files that are left.
    TakeRemains,
    /// List whatever is left without a database.
    ListRemains,
    /// Let go of them.
    ReleaseRemains,
    /// Remove the first of the files to remove.
    RemoveFile,
    /// Remove the backup directory, where it is there.
    RemoveBackups,
    /// Remove the database, where it is there.
    RemoveDatabase,
    /// Remove the legacy directory.
    RemoveSource,
    /// Remove the receipt, where it is there.
    RemoveMarker,
    /// Remove the record.
    RemoveRecord,
    /// Nothing is left to do.
    Complete,
}

/// What stands at the staging place.
#[derive(Debug)]
pub enum Leftover {
    Missing,
    /// A directory: whether it holds a receipt, and its entries, each with
    /// whether it is a regular file.
    Directory { receipt: bool, entries: Vec<(String, bool)> },
    /// Something else.
    Other,
}

/// What came of a piece of work.
#[derive(Debug)]
pub enum Reply {
    Done,
    Failed(Error),
    /// Whether something is there.
    Present(bool),
    Found(Probe),
    Values(Vec<String>),
    /// The record as read, and the canonical directory of Stores.
    Progressed(Result<Progress, Error>, String),
    /// A Store ID, a token, and the canonical directory of Stores.
    Drawn(StoreId, StoreId, String),
    ManifestRead(Probe, Result<Manifest, Error>),
    ReceiptRead(Probe, Result<Receipt, Error>),
    Files(Vec<FileHash>),
    Leftover(Leftover),
}

/// The entries of a directory, names as characters.
pub open spec fn entries_seen(entries: Seq<(String, bool)>) -> Seq<(Seq<char>, bool)> {
    Seq::new(entries.len(), |i: int| (entries[i].0@, entries[i].1))
}

/// Whether every entry is a regular file of the name under which a receipt is
/// written.
pub open spec fn only_pending(entries: Seq<(Seq<char>, bool)>) -> bool {
    forall|i: int|
        0 <= i < entries.len() ==> #[trigger] entries[i] == ("migration.pending"@, true)
}

/// The model of [`Leftover`].
pub enum LeftoverView {
    Missing,
    Directory(bool, Seq<(Seq<char>, bool)>),
    Other,
}

impl LeftoverView {
    /// Whether it is a directory without a receipt that holds nothing but
    /// what writing one leaves behind.
    pub open spec fn clearable(self) -> bool {
        match self {
            LeftoverView::Directory(receipt, entries) => !receipt && only_pending(entries),
            _ => false,
        }
    }
}

impl View for Leftover {
    type V = LeftoverView;

    open spec fn view(&self) -> LeftoverView {
        match *self {
            Leftover::Missing => LeftoverView::Missing,
            Leftover::Directory { receipt, entries } => LeftoverView::Directory(
                receipt,
                entries_seen(entries@),
            ),
            Leftover::Other => LeftoverView::Other,
        }
    }
}

/// What came of a piece of work, texts as characters.
pub enum ReplyView {
    Done,
    Failed(Refusal),
    Present(bool),
    Found(ProbeView),
    Values(Seq<Seq<char>>),
    Progressed(Result<ProgressView, Refusal>, Seq<char>),
    Drawn(Seq<char>, Seq<char>, Seq<char>),
    ManifestRead(ProbeView, Result<ManifestView, Refusal>),
    ReceiptRead(ProbeView, Result<ReceiptView, Refusal>),
    Files(Seq<FileHashView>),
    Leftover(LeftoverView),
}

impl View for Reply {
    type V = ReplyView;

    open spec fn view(&self) -> ReplyView {
        match *self {
            Reply::Done => ReplyView::Done,
            Reply::Failed(error) => ReplyView::Failed(error@),
            Reply::Present(found) => ReplyView::Present(found),
            Reply::Found(probe) => ReplyView::Found(probe@),
            Reply::Values(values) => ReplyView::Values(spread(values@)),
            Reply::Progressed(read, root) => ReplyView::Progressed(progress_read(read), root@),
            Reply::Drawn(id, token, root) => ReplyView::Drawn(id@, token@, root@),
            Reply::ManifestRead(probe, read) => ReplyView::ManifestRead(probe@, manifest_read(read)),
            Reply::ReceiptRead(probe, read) => ReplyView::ReceiptRead(probe@, receipt_read(read)),
            Reply::Files(files) => ReplyView::Files(hashes(files@)),
            Reply::Leftover(leftover) => ReplyView::Leftover(leftover@),
        }
    }
}

/// Whether a reply answers a step. A failure answers every one but the last.
pub open spec fn answers(step: Step, reply: ReplyView) -> bool {
    match reply {
        ReplyView::Failed(_) => step != Step::Complete,
        ReplyView::Present(_) => step == Step::ProbeRecord || step == Step::ProbeTaken || step
            == Step::ProbeLeftovers || step == Step::ProbeStore || step == Step::ProbeDatabase,
        ReplyView::Found(_) => step == Step::ProbeSource,
        ReplyView::Values(_) => step == Step::ReadPointers || step == Step::ListRemains,
        ReplyView::Progressed(_, _) => step == Step::ReadProgress,
        ReplyView::Drawn(_, _, _) => step == Step::DrawIds,
        ReplyView::ManifestRead(_, _) => step == Step::CheckStore || step == Step::CheckPlaced
            || step == Step::CheckPointed,
        ReplyView::ReceiptRead(_, _) => step == Step::ReadReceipt || step == Step::ReadStagedReceipt
            || step == Step::ReadStoreReceipt,
        ReplyView::Files(_) => step == Step::TakeInventory || step == Step::Recheck || step
            == Step::TakeRemains,
        ReplyView::Leftover(_) => step == Step::ProbeStaged,
        ReplyView::Done => match step {
            Step::ProbeRecord | Step::ProbeTaken | Step::ProbeLeftovers | Step::ProbeStore
            | Step::ProbeDatabase | Step::ProbeSource | Step::ReadPointers | Step::ListRemains
            | Step::ReadProgress | Step::DrawIds | Step::CheckStore | Step::CheckPlaced
            | Step::CheckPointed | Step::ReadReceipt | Step::ReadStagedReceipt
            | Step::ReadStoreReceipt | Step::TakeInventory | Step::Recheck | Step::TakeRemains
            | Step::ProbeStaged | Step::Complete => false,
            _ => true,
        },
    }
}

/// A migration under way.
#[derive(Debug)]
pub struct Cutover {
    pub step: Step,
    /// Where Stores live.
    pub root: String,
    /// The Git Common Directory.
    pub common: String,
    /// The pointer values, once read.
    pub pointers: Vec<String>,
    /// The record, once there is one.
    pub progress: Option<Progress>,
    /// The files that the receipt lists, once there is one.
    pub files: Vec<FileHash>,
    /// The legacy files still to remove.
    pub queue: Vec<String>,
    /// Whether the pointer named the Store from the start.
    pub resumed: bool,
    /// Whether the pointer names the Store.
    pub pointed: bool,
}

/// A migration under way, texts as characters.
#[verifier::ext_equal]
pub struct CutoverView {
    pub step: Step,
    pub root: Seq<char>,
    pub common: Seq<char>,
    pub pointers: Seq<Seq<char>>,
    pub progress: Option<ProgressView>,
    pub files: Seq<FileHashView>,
    pub queue: Seq<Seq<char>>,
    pub resumed: bool,
    pub pointed: bool,
}

impl View for Cutover {
    type V = CutoverView;

    open spec fn view(&self) -> CutoverView {
        CutoverView {
            step: self.step,
            root: self.root@,
            common: self.common@,
            pointers: spread(self.pointers@),
            progress: match self.progress {
                Some(progress) => Some(progress@),
                None => None,
            },
            files: hashes(self.files@),
            queue: spread(self.queue@),
            resumed: self.resumed,
            pointed: self.pointed,
        }
    }
}

/// Whether a step comes before there is a record.
pub open spec fn unrecorded(step: Step) -> bool {
    match step {
        Step::LockMigration | Step::LockRemote | Step::ReadPointers | Step::ProbeRecord
        | Step::ReadProgress | Step::InspectNewSource | Step::DrawIds => true,
        _ => false,
    }
}

/// Whether a step comes after the pointer names the Store.
pub open spec fn past_pointer(step: Step) -> bool {
    match step {
        Step::LockStore | Step::CheckStore | Step::InspectStore | Step::ProbeLeftovers
        | Step::ReadReceipt | Step::CheckPointed | Step::FlushPointer | Step::Observe(
            Boundary::Pointed,
        ) | Step::ReleaseSource | Step::ProbeSource | Step::LockRemains | Step::ProbeDatabase
        | Step::FreezeRemains | Step::TakeRemains | Step::ListRemains | Step::Observe(
            Boundary::Cleanup,
        ) | Step::ReleaseRemains | Step::RemoveFile | Step::Observe(Boundary::CleanedFile)
        | Step::RemoveBackups | Step::RemoveDatabase | Step::RemoveSource | Step::Observe(
            Boundary::Removed,
        ) | Step::RemoveMarker | Step::Observe(Boundary::Finished) | Step::RemoveRecord
        | Step::Complete => true,
        _ => false,
    }
}

/// Whether a step removes legacy data.
pub open spec fn removes_legacy(step: Step) -> bool {
    match step {
        Step::RemoveFile | Step::RemoveBackups | Step::RemoveDatabase | Step::RemoveSource => true,
        _ => false,
    }
}

impl CutoverView {
    /// What holds of a migration at every step: there is a record from its
    /// writing on, the pointer names the Store from its installation on, and
    /// there is a file to remove where one is to be removed.
    pub open spec fn wf(self) -> bool {
        &&& !unrecorded(self.step) ==> self.progress is Some
        &&& past_pointer(self.step) ==> self.pointed
        &&& self.step == Step::RemoveFile ==> self.queue.len() > 0
        &&& self.resumed ==> self.pointed
    }

    /// The Store's ID.
    pub open spec fn id(self) -> Seq<char> {
        self.progress->0.store_id
    }

    /// On with another step.
    pub open spec fn to(self, step: Step) -> CutoverView {
        CutoverView { step, ..self }
    }

    /// After the record: resume where the pointer names the Store, refuse where
    /// it names another, and copy where there is none.
    pub open spec fn from_record(self) -> Result<CutoverView, Refusal> {
        if self.pointers == seq![self.id()] {
            Ok(CutoverView { step: Step::LockStore, resumed: true, pointed: true, ..self })
        } else if self.pointers.len() > 0 {
            Err(Refusal::Migration("Git pointer disagrees with migration progress"@))
        } else {
            Ok(self.to(Step::InspectSource))
        }
    }

    /// On with the removal of files, or of the directories when none is left.
    pub open spec fn to_removal(self) -> CutoverView {
        self.to(
            if self.queue.len() > 0 {
                Step::RemoveFile
            } else {
                Step::RemoveBackups
            },
        )
    }

    /// What comes after a piece of work that reports nothing.
    pub open spec fn done(self) -> Result<CutoverView, Refusal> {
        match self.step {
            Step::LockMigration => Ok(self.to(Step::LockRemote)),
            Step::LockRemote => Ok(self.to(Step::ReadPointers)),
            Step::InspectNewSource => Ok(self.to(Step::DrawIds)),
            Step::WriteRecord => Ok(self.to(Step::Observe(Boundary::Recorded))),
            Step::LockStore => Ok(self.to(Step::CheckStore)),
            Step::InspectStore => Ok(self.to(Step::ProbeLeftovers)),
            Step::InspectSource => Ok(self.to(Step::Freeze)),
            Step::Freeze => Ok(self.to(Step::TakeInventory)),
            Step::ClearStaged => Ok(self.to(Step::ProbeStore)),
            Step::RemoveStaged => Ok(self.to(Step::ProbeStore)),
            Step::TryStoreLock => Ok(self.to(Step::RemoveStore)),
            Step::RemoveStore => Ok(self.to(Step::CreateStage)),
            Step::CreateStage => Ok(self.to(Step::Observe(Boundary::Reserved))),
            Step::WriteReceipt => Ok(self.to(Step::Snapshot)),
            Step::Snapshot => Ok(self.to(Step::Observe(Boundary::Staged))),
            Step::InspectImages => Ok(self.to(Step::Publish)),
            Step::Publish => Ok(self.to(Step::Observe(Boundary::Validated))),
            Step::MoveIntoPlace => Ok(self.to(Step::CheckPlaced)),
            Step::LockPlaced => Ok(self.to(Step::Observe(Boundary::Published))),
            Step::InstallPointer => Ok(
                CutoverView { step: Step::CheckPointed, pointed: true, ..self },
            ),
            Step::FlushPointer => if self.resumed {
                Ok(self.to(Step::ReleaseSource))
            } else {
                Ok(self.to(Step::Observe(Boundary::Pointed)))
            },
            Step::ReleaseSource => Ok(self.to(Step::ProbeSource)),
            Step::LockRemains => Ok(self.to(Step::ProbeDatabase)),
            Step::FreezeRemains => Ok(self.to(Step::TakeRemains)),
            Step::ReleaseRemains => Ok(self.to_removal()),
            Step::RemoveFile => Ok(
                CutoverView {
                    step: Step::Observe(Boundary::CleanedFile),
                    queue: self.queue.skip(1),
                    ..self
                },
            ),
            Step::RemoveBackups => Ok(self.to(Step::RemoveDatabase)),
            Step::RemoveDatabase => Ok(self.to(Step::RemoveSource)),
            Step::RemoveSource => Ok(self.to(Step::Observe(Boundary::Removed))),
            Step::RemoveMarker => Ok(self.to(Step::Observe(Boundary::Finished))),
            Step::RemoveRecord => Ok(self.to(Step::Complete)),
            Step::Observe(Boundary::Recorded) => self.from_record(),
            Step::Observe(Boundary::Reserved) => Ok(self.to(Step::WriteReceipt)),
            Step::Observe(Boundary::Staged) => Ok(self.to(Step::InspectImages)),
            Step::Observe(Boundary::Validated) => Ok(self.to(Step::MoveIntoPlace)),
            Step::Observe(Boundary::Published) => Ok(self.to(Step::Recheck)),
            Step::Observe(Boundary::Pointed) => Ok(self.to(Step::ReleaseSource)),
            Step::Observe(Boundary::Cleanup) => Ok(self.to(Step::ReleaseRemains)),
            Step::Observe(Boundary::CleanedFile) => Ok(self.to_removal()),
            Step::Observe(Boundary::Removed) => Ok(self.to(Step::RemoveMarker)),
            Step::Observe(Boundary::Finished) => Ok(self.to(Step::RemoveRecord)),
            _ => Ok(self),
        }
    }

    /// What comes after it was looked whether something is there.
    pub open spec fn looked(self, found: bool) -> Result<CutoverView, Refusal> {
        match self.step {
            Step::ProbeRecord => if found {
                Ok(self.to(Step::ReadProgress))
            } else if self.pointers.len() > 0 {
                Err(Refusal::Legacy)
            } else {
                Ok(self.to(Step::InspectNewSource))
            },
            Step::ProbeTaken => if found {
                Err(Refusal::Collision)
            } else {
                Ok(self.to(Step::WriteRecord))
            },
            Step::ProbeLeftovers => Ok(
                self.to(
                    if found {
                        Step::ReadReceipt
                    } else {
                        Step::RemoveMarker
                    },
                ),
            ),
            Step::ProbeStore => Ok(
                self.to(
                    if found {
                        Step::ReadStoreReceipt
                    } else {
                        Step::CreateStage
                    },
                ),
            ),
            _ => Ok(
                self.to(
                    if found {
                        Step::FreezeRemains
                    } else {
                        Step::ListRemains
                    },
                ),
            ),
        }
    }

    /// What comes after the legacy files were listed.
    pub open spec fn listed(self, files: Seq<FileHashView>) -> Result<CutoverView, Refusal> {
        match self.step {
            Step::TakeInventory => Ok(CutoverView { step: Step::ProbeStaged, files, ..self }),
            Step::Recheck => if same_files(files, self.files) {
                Ok(self.to(Step::InstallPointer))
            } else {
                Err(Refusal::Migration("legacy files changed during staging"@))
            },
            _ => if all_listed(files, self.files) {
                Ok(
                    CutoverView {
                        step: Step::Observe(Boundary::Cleanup),
                        queue: but_database(files),
                        ..self
                    },
                )
            } else {
                Err(
                    Refusal::Migration(
                        "legacy files changed after cutover; preserve both Stores and restore manually"@,
                    ),
                )
            },
        }
    }

    /// What comes after a receipt was read.
    pub open spec fn receipted(self, directory: ProbeView, read: Result<ReceiptView, Refusal>) -> Result<
        CutoverView,
        Refusal,
    > {
        match receipt_in(directory, read, self.progress->0) {
            Err(refusal) => Err(refusal),
            Ok(receipt) => match self.step {
                Step::ReadReceipt => Ok(
                    CutoverView { step: Step::FlushPointer, files: receipt.files, ..self },
                ),
                Step::ReadStagedReceipt => Ok(self.to(Step::RemoveStaged)),
                _ => Ok(self.to(Step::TryStoreLock)),
            },
        }
    }

    /// What comes after a manifest was read: it must let this repository in.
    pub open spec fn checked(self, directory: ProbeView, read: Result<ManifestView, Refusal>) -> Result<
        CutoverView,
        Refusal,
    > {
        match validated(self.root, self.id(), self.common, manifest_in(self.id(), directory, read)) {
            Err(refusal) => Err(refusal),
            Ok(_) => match self.step {
                Step::CheckStore => Ok(self.to(Step::InspectStore)),
                Step::CheckPlaced => Ok(self.to(Step::LockPlaced)),
                _ => Ok(self.to(Step::FlushPointer)),
            },
        }
    }

    /// What comes after a listing of names.
    pub open spec fn named(self, values: Seq<Seq<char>>) -> Result<CutoverView, Refusal> {
        match self.step {
            Step::ReadPointers => Ok(
                CutoverView { step: Step::ProbeRecord, pointers: values, ..self },
            ),
            _ => if values.len() > 0 {
                Err(Refusal::Migration("legacy database is missing but other files remain"@))
            } else {
                Ok(
                    CutoverView {
                        step: Step::Observe(Boundary::Cleanup),
                        queue: Seq::empty(),
                        ..self
                    },
                )
            },
        }
    }

    /// What comes after a reply.
    pub open spec fn after(self, reply: ReplyView) -> Result<CutoverView, Refusal> {
        match reply {
            ReplyView::Failed(refusal) => Err(refusal),
            ReplyView::Done => self.done(),
            ReplyView::Present(found) => self.looked(found),
            ReplyView::Values(values) => self.named(values),
            ReplyView::Files(files) => self.listed(files),
            ReplyView::ReceiptRead(directory, read) => self.receipted(directory, read),
            ReplyView::ManifestRead(directory, read) => self.checked(directory, read),
            ReplyView::Progressed(read, root) => match recorded(read, self.common, root) {
                Err(refusal) => Err(refusal),
                Ok(progress) => Ok(
                    CutoverView {
                        step: Step::Observe(Boundary::Recorded),
                        progress: Some(progress),
                        ..self
                    },
                ),
            },
            ReplyView::Drawn(id, token, root) => Ok(
                CutoverView {
                    step: Step::ProbeTaken,
                    progress: Some(
                        ProgressView {
                            version: 1,
                            store_id: id,
                            token,
                            common: self.common,
                            root,
                        },
                    ),
                    ..self
                },
            ),
            ReplyView::Found(probe) => match probe {
                ProbeView::Absent(_) => Ok(self.to(Step::RemoveMarker)),
                ProbeView::Unreadable(text) => Err(Refusal::Io(text)),
                ProbeView::Directory => Ok(self.to(Step::LockRemains)),
                _ => Err(Refusal::Migration("legacy directory was replaced; cleanup refused"@)),
            },
            ReplyView::Leftover(leftover) => if leftover is Missing {
                Ok(self.to(Step::ProbeStore))
            } else if leftover.clearable() {
                Ok(self.to(Step::ClearStaged))
            } else {
                Ok(self.to(Step::ReadStagedReceipt))
            },
        }
    }
}

/// A step that was taken, as values.
pub open spec fn taken(r: Result<Cutover, Error>) -> Result<CutoverView, Refusal> {
    match r {
        Ok(next) => Ok(next@),
        Err(error) => Err(error@),
    }
}

/// Begin, or take up again, the migration of the legacy Store in a Git Common
/// Directory to the Stores below `root`.
pub fn migrate(root: &str, common: &str) -> (r: Cutover)
    ensures
        r@ == (CutoverView {
            step: Step::LockMigration,
            root: root@,
            common: common@,
            pointers: Seq::empty(),
            progress: None,
            files: Seq::empty(),
            queue: Seq::empty(),
            resumed: false,
            pointed: false,
        }),
        r@.wf(),
{
    let start = Cutover {
        step: Step::LockMigration,
        root: root.to_owned(),
        common: common.to_owned(),
        pointers: Vec::new(),
        progress: None,
        files: Vec::new(),
        queue: Vec::new(),
        resumed: false,
        pointed: false,
    };
    proof {
        assert(start@.pointers =~= Seq::<Seq<char>>::empty());
        assert(start@.files =~= Seq::<FileHashView>::empty());
        assert(start@.queue =~= Seq::<Seq<char>>::empty());
    }
    start
}

impl Cutover {
    fn to(self, step: Step) -> (r: Cutover)
        ensures
            r@ == self@.to(step),
    {
        let mut next = self;
        next.step = step;
        next
    }

    fn to_removal(self) -> (r: Cutover)
        ensures
            r@ == self@.to_removal(),
    {
        proof {
            assert(self@.queue.len() == self.queue@.len());
        }
        if self.queue.len() > 0 {
            self.to(Step::RemoveFile)
        } else {
            self.to(Step::RemoveBackups)
        }
    }

    fn from_record(self) -> (r: Result<Cutover, Error>)
        requires
            self@.progress is Some,
        ensures
            taken(r) == self@.from_record(),
    {
        proof {
            assert(self@.pointers.len() == self.pointers@.len());
        }
        let resumes = match &self.progress {
            Some(progress) => {
                let one = self.pointers.len() == 1 && same_text(
                    self.pointers[0].as_str(),
                    progress.store_id.text(),
                );
                proof {
                    if one {
                        assert(self@.pointers =~= seq![self@.id()]);
                    } else if self@.pointers == seq![self@.id()] {
                        assert(self@.pointers[0] == self@.id());
                        assert(self@.pointers.len() == 1);
                    }
                }
                one
            },
            None => false,
        };
        if resumes {
            let mut next = self;
            next.step = Step::LockStore;
            next.resumed = true;
            next.pointed = true;
            return Ok(next);
        }
        if self.pointers.len() > 0 {
            return Err(fault("Git pointer disagrees with migration progress"));
        }
        Ok(self.to(Step::InspectSource))
    }

    fn done(self) -> (r: Result<Cutover, Error>)
        requires
            self@.wf(),
            answers(self.step, ReplyView::Done),
        ensures
            taken(r) == self@.done(),
    {
        let next = match self.step {
            Step::LockMigration => Step::LockRemote,
            Step::LockRemote => Step::ReadPointers,
            Step::InspectNewSource => Step::DrawIds,
            Step::WriteRecord => Step::Observe(Boundary::Recorded),
            Step::LockStore => Step::CheckStore,
            Step::InspectStore => Step::ProbeLeftovers,
            Step::InspectSource => Step::Freeze,
            Step::Freeze => Step::TakeInventory,
            Step::ClearStaged => Step::ProbeStore,
            Step::RemoveStaged => Step::ProbeStore,
            Step::TryStoreLock => Step::RemoveStore,
            Step::RemoveStore => Step::CreateStage,
            Step::CreateStage => Step::Observe(Boundary::Reserved),
            Step::WriteReceipt => Step::Snapshot,
            Step::Snapshot => Step::Observe(Boundary::Staged),
            Step::InspectImages => Step::Publish,
            Step::Publish => Step::Observe(Boundary::Validated),
            Step::MoveIntoPlace => Step::CheckPlaced,
            Step::LockPlaced => Step::Observe(Boundary::Published),
            Step::InstallPointer => {
                let mut next = self;
                next.step = Step::CheckPointed;
                next.pointed = true;
                return Ok(next);
            },
            Step::FlushPointer => {
                if self.resumed {
                    Step::ReleaseSource
                } else {
                    Step::Observe(Boundary::Pointed)
                }
            },
            Step::ReleaseSource => Step::ProbeSource,
            Step::LockRemains => Step::ProbeDatabase,
            Step::FreezeRemains => Step::TakeRemains,
            Step::ReleaseRemains => {
                return Ok(self.to_removal());
            },
            Step::RemoveFile => {
                let mut next = self;
                let ghost before = next.queue@;
                proof {
                    assert(spread(before).len() == before.len());
                }
                next.queue.remove(0);
                next.step = Step::Observe(Boundary::CleanedFile);
                proof {
                    assert(spread(next.queue@) =~= spread(before).skip(1));
                }
                return Ok(next);
            },
            Step::RemoveBackups => Step::RemoveDatabase,
            Step::RemoveDatabase => Step::RemoveSource,
            Step::RemoveSource => Step::Observe(Boundary::Removed),
            Step::RemoveMarker => Step::Observe(Boundary::Finished),
            Step::RemoveRecord => Step::Complete,
            Step::Observe(Boundary::Recorded) => {
                return self.from_record();
            },
            Step::Observe(Boundary::Reserved) => Step::WriteReceipt,
            Step::Observe(Boundary::Staged) => Step::InspectImages,
            Step::Observe(Boundary::Validated) => Step::MoveIntoPlace,
            Step::Observe(Boundary::Published) => Step::Recheck,
            Step::Observe(Boundary::Pointed) => Step::ReleaseSource,
            Step::Observe(Boundary::Cleanup) => Step::ReleaseRemains,
            Step::Observe(Boundary::CleanedFile) => {
                return Ok(self.to_removal());
            },
            Step::Observe(Boundary::Removed) => Step::RemoveMarker,
            Step::Observe(Boundary::Finished) => Step::RemoveRecord,
            other => other,
        };
        Ok(self.to(next))
    }

    fn looked(self, found: bool) -> (r: Result<Cutover, Error>)
        ensures
            taken(r) == self@.looked(found),
    {
        proof {
            assert(self@.pointers.len() == self.pointers@.len());
        }
        match self.step {
            Step::ProbeRecord => {
                if found {
                    Ok(self.to(Step::ReadProgress))
                } else if self.pointers.len() > 0 {
                    Err(Error::Legacy)
                } else {
                    Ok(self.to(Step::InspectNewSource))
                }
            },
            Step::ProbeTaken => {
                if found {
                    Err(Error::Collision)
                } else {
                    Ok(self.to(Step::WriteRecord))
                }
            },
            Step::ProbeLeftovers => Ok(
                self.to(
                    if found {
                        Step::ReadReceipt
                    } else {
                        Step::RemoveMarker
                    },
                ),
            ),
            Step::ProbeStore => Ok(
                self.to(
                    if found {
                        Step::ReadStoreReceipt
                    } else {
                        Step::CreateStage
                    },
                ),
            ),
            _ => Ok(
                self.to(
                    if found {
                        Step::FreezeRemains
                    } else {
                        Step::ListRemains
                    },
                ),
            ),
        }
    }

    fn listed(self, files: Vec<FileHash>) -> (r: Result<Cutover, Error>)
        ensures
            taken(r) == self@.listed(hashes(files@)),
    {
        match self.step {
            Step::TakeInventory => {
                let mut next = self;
                next.files = files;
                next.step = Step::ProbeStaged;
                Ok(next)
            },
            Step::Recheck => {
                if are_same(&files, &self.files) {
                    Ok(self.to(Step::InstallPointer))
                } else {
                    Err(fault("legacy files changed during staging"))
                }
            },
            _ => {
                if are_listed(&files, &self.files) {
                    let mut next = self;
                    next.queue = removals(&files);
                    next.step = Step::Observe(Boundary::Cleanup);
                    Ok(next)
                } else {
                    Err(
                        fault(
                            "legacy files changed after cutover; preserve both Stores and restore manually",
                        ),
                    )
                }
            },
        }
    }

    fn receipted(self, directory: &Probe, read: Result<Receipt, Error>) -> (r: Result<Cutover, Error>)
        requires
            self@.progress is Some,
        ensures
            taken(r) == self@.receipted(directory@, receipt_read(read)),
    {
        let receipt = match &self.progress {
            Some(progress) => read_receipt(directory, read, progress),
            None => Err(Error::Legacy),
        };
        match receipt {
            Err(error) => Err(error),
            Ok(receipt) => match self.step {
                Step::ReadReceipt => {
                    let mut next = self;
                    next.files = receipt.files;
                    next.step = Step::FlushPointer;
                    Ok(next)
                },
                Step::ReadStagedReceipt => Ok(self.to(Step::RemoveStaged)),
                _ => Ok(self.to(Step::TryStoreLock)),
            },
        }
    }

    fn checked(self, directory: &Probe, read: Result<Manifest, Error>) -> (r: Result<Cutover, Error>)
        requires
            self@.progress is Some,
        ensures
            taken(r) == self@.checked(directory@, manifest_read(read)),
    {
        let path = match &self.progress {
            Some(progress) => validate(
                self.root.as_str(),
                &progress.store_id,
                self.common.as_str(),
                directory,
                read,
            ),
            None => Err(Error::Legacy),
        };
        match path {
            Err(error) => Err(error),
            Ok(_) => match self.step {
                Step::CheckStore => Ok(self.to(Step::InspectStore)),
                Step::CheckPlaced => Ok(self.to(Step::LockPlaced)),
                _ => Ok(self.to(Step::FlushPointer)),
            },
        }
    }

    fn named(self, values: Vec<String>) -> (r: Result<Cutover, Error>)
        ensures
            taken(r) == self@.named(spread(values@)),
    {
        proof {
            assert(spread(values@).len() == values@.len());
        }
        match self.step {
            Step::ReadPointers => {
                let mut next = self;
                next.pointers = values;
                next.step = Step::ProbeRecord;
                Ok(next)
            },
            _ => {
                if values.len() > 0 {
                    Err(fault("legacy database is missing but other files remain"))
                } else {
                    let mut next = self;
                    next.queue = Vec::new();
                    next.step = Step::Observe(Boundary::Cleanup);
                    proof {
                        assert(next@.queue =~= Seq::<Seq<char>>::empty());
                    }
                    Ok(next)
                }
            },
        }
    }

    /// What comes next, given what came of the work at hand.
    pub fn advance(self, reply: Reply) -> (r: Result<Cutover, Error>)
        requires
            self@.wf(),
            answers(self.step, reply@),
        ensures
            taken(r) == self@.after(reply@),
            r is Ok ==> r->Ok_0@.wf(),
    {
        proof {
            lemma_after_keeps_wf(self@, reply@);
        }
        match reply {
            Reply::Failed(error) => Err(error),
            Reply::Done => self.done(),
            Reply::Present(found) => self.looked(found),
            Reply::Values(values) => self.named(values),
            Reply::Files(files) => self.listed(files),
            Reply::ReceiptRead(directory, read) => self.receipted(&directory, read),
            Reply::ManifestRead(directory, read) => self.checked(&directory, read),
            Reply::Progressed(read, root) => {
                match read_progress(read, self.common.as_str(), root.as_str()) {
                    Err(error) => Err(error),
                    Ok(progress) => {
                        let mut next = self;
                        next.progress = Some(progress);
                        next.step = Step::Observe(Boundary::Recorded);
                        Ok(next)
                    },
                }
            },
            Reply::Drawn(id, token, root) => {
                let mut next = self;
                next.progress = Some(
                    Progress {
                        version: 1,
                        store_id: id,
                        token,
                        common: next.common.clone(),
                        root,
                    },
                );
                next.step = Step::ProbeTaken;
                Ok(next)
            },
            Reply::Found(probe) => match probe {
                Probe::Absent(_) => Ok(self.to(Step::RemoveMarker)),
                Probe::Unreadable(text) => Err(Error::Io(text)),
                Probe::Directory => Ok(self.to(Step::LockRemains)),
                _ => Err(fault("legacy directory was replaced; cleanup refused")),
            },
            Reply::Leftover(leftover) => {
                if is_missing(&leftover) {
                    Ok(self.to(Step::ProbeStore))
                } else if is_clearable(&leftover) {
                    Ok(self.to(Step::ClearStaged))
                } else {
                    Ok(self.to(Step::ReadStagedReceipt))
                }
            },
        }
    }

    /// The new Store's database, once there is a record.
    pub fn database(&self) -> (r: Option<String>)
        ensures
            match r {
                Some(path) => self@.progress is Some && path@ == below(
                    below(self@.root, self@.id()),
                    "tk.db"@,
                ),
                None => self@.progress is None,
            },
    {
        match &self.progress {
            None => None,
            Some(progress) => {
                let dir = join(self.root.as_str(), progress.store_id.text());
                Some(join(dir.as_str(), "tk.db"))
            },
        }
    }

    /// The manifest of the new Store, once there is a record.
    pub fn manifest(&self, git_remote_urls: Vec<String>) -> (r: Option<Manifest>)
        ensures
            match r {
                Some(manifest) => self@.progress is Some && manifest@ == (ManifestView {
                    version: 1,
                    store_id: self@.id(),
                    git_common_dir: self@.common,
                    previous_git_common_dirs: Seq::empty(),
                    git_remote_urls: spread(git_remote_urls@),
                }),
                None => self@.progress is None,
            },
    {
        match &self.progress {
            None => None,
            Some(progress) => {
                let manifest = Manifest {
                    version: 1,
                    store_id: progress.store_id.copy(),
                    association: Association { git_common_dir: self.common.clone() },
                    evidence: Evidence { previous_git_common_dirs: Vec::new(), git_remote_urls },
                };
                proof {
                    assert(manifest@.previous_git_common_dirs =~= Seq::<Seq<char>>::empty());
                }
                Some(manifest)
            },
        }
    }
}

fn is_missing(leftover: &Leftover) -> (r: bool)
    ensures
        r == (leftover@ is Missing),
{
    match leftover {
        Leftover::Missing => true,
        _ => false,
    }
}

fn are_pending(entries: &Vec<(String, bool)>) -> (r: bool)
    ensures
        r == only_pending(entries_seen(entries@)),
{
    let ghost seen = entries_seen(entries@);
    let mut i: usize = 0;
    while i < entries.len()
        invariant
            0 <= i <= entries@.len(),
            seen == entries_seen(entries@),
            forall|k: int| 0 <= k < i ==> #[trigger] seen[k] == ("migration.pending"@, true),
        decreases entries@.len() - i,
    {
        if !(same_text(entries[i].0.as_str(), "migration.pending") && entries[i].1) {
            proof {
                assert(seen[i as int] != ("migration.pending"@, true));
            }
            return false;
        }
        i = i + 1;
    }
    true
}

fn is_clearable(leftover: &Leftover) -> (r: bool)
    ensures
        r == leftover@.clearable(),
{
    match leftover {
        Leftover::Directory { receipt, entries } => !*receipt && are_pending(entries),
        _ => false,
    }
}

proof fn lemma_after_keeps_wf(v: CutoverView, reply: ReplyView)
    requires
        v.wf(),
        answers(v.step, reply),
    ensures
        v.after(reply) is Ok ==> v.after(reply)->Ok_0.wf(),
{
}

/// A migration that has taken the given replies from the start.
pub open spec fn reached(start: CutoverView, replies: Seq<ReplyView>) -> Result<CutoverView, Refusal>
    decreases replies.len(),
{
    if replies.len() == 0 {
        Ok(start)
    } else {
        match reached(start, replies.drop_last()) {
            Err(refusal) => Err(refusal),
            Ok(v) => if answers(v.step, replies.last()) {
                v.after(replies.last())
            } else {
                Err(Refusal::Legacy)
            },
        }
    }
}

/// Whether the reply at place `k` put the pointer on the Store: it says that
/// the pointer was installed, or that it was found to name the Store.
pub open spec fn pointed_by(start: CutoverView, replies: Seq<ReplyView>, k: int, id: Seq<char>) -> bool {
    &&& 0 <= k < replies.len()
    &&& reached(start, replies.take(k)) matches Ok(v) && {
        ||| v.step == Step::InstallPointer && replies[k] is Done && v.id() == id
        ||| v.step == Step::ReadPointers && replies[k] == ReplyView::Values(seq![id])
    }
}

/// Where a migration stands follows from the replies: the pointers are what was
/// read, and where the pointer names the Store, a reply said so.
pub open spec fn traced(start: CutoverView, replies: Seq<ReplyView>, v: CutoverView) -> bool {
    &&& v.wf()
    &&& v.pointed ==> v.progress is Some && exists|k: int| pointed_by(start, replies, k, v.id())
    &&& v.pointers.len() > 0 ==> !unread(v.step) && exists|k: int|
        read_at(start, replies, k, v.pointers)
    &&& early(v.step) ==> !v.pointed
}

/// Whether the reply at place `k` gave the pointers.
pub open spec fn read_at(
    start: CutoverView,
    replies: Seq<ReplyView>,
    k: int,
    pointers: Seq<Seq<char>>,
) -> bool {
    &&& 0 <= k < replies.len()
    &&& reached(start, replies.take(k)) matches Ok(v) && v.step == Step::ReadPointers
    &&& replies[k] == ReplyView::Values(pointers)
}

/// The start of a migration.
pub open spec fn is_start(v: CutoverView) -> bool {
    &&& v.step == Step::LockMigration
    &&& v.pointers.len() == 0
    &&& v.progress is None
    &&& !v.pointed
    &&& !v.resumed
}

proof fn lemma_longer(start: CutoverView, replies: Seq<ReplyView>)
    requires
        replies.len() > 0,
    ensures
        forall|k: int, id: Seq<char>| #[trigger]
            pointed_by(start, replies.drop_last(), k, id) ==> pointed_by(start, replies, k, id),
        forall|k: int, p: Seq<Seq<char>>| #[trigger]
            read_at(start, replies.drop_last(), k, p) ==> read_at(start, replies, k, p),
{
    let before = replies.drop_last();
    assert forall|k: int, id: Seq<char>| #[trigger] pointed_by(start, before, k, id) implies pointed_by(
        start,
        replies,
        k,
        id,
    ) by {
        assert(before.take(k) =~= replies.take(k));
        assert(before[k] == replies[k]);
    }
    assert forall|k: int, p: Seq<Seq<char>>| #[trigger] read_at(start, before, k, p) implies read_at(
        start,
        replies,
        k,
        p,
    ) by {
        assert(before.take(k) =~= replies.take(k));
        assert(before[k] == replies[k]);
    }
}

/// What one step may change of the pointers, the record, and whether the
/// pointer names the Store.
pub open spec fn steps_to(v: CutoverView, reply: ReplyView, w: CutoverView) -> bool {
    &&& w.pointed ==> v.pointed || (v.step == Step::InstallPointer && reply is Done) || (v.step
        == Step::Observe(Boundary::Recorded) && v.pointers == seq![v.id()])
    &&& w.pointed ==> w.progress is Some && w.progress == v.progress
    &&& w.pointers == v.pointers || (v.step == Step::ReadPointers && reply == ReplyView::Values(
        w.pointers,
    ))
    &&& early(w.step) ==> early(v.step)
    &&& unread(w.step) ==> unread(v.step) && v.step != Step::ReadPointers
    &&& early(w.step) ==> w.pointed == v.pointed
}

/// Whether a step comes before it is decided where the pointer stands.
pub open spec fn early(step: Step) -> bool {
    unrecorded(step) || step == Step::ProbeTaken || step == Step::WriteRecord || step
        == Step::Observe(Boundary::Recorded)
}

/// Whether a step comes before the pointers are read.
pub open spec fn unread(step: Step) -> bool {
    step == Step::ReadPointers || step == Step::LockMigration || step == Step::LockRemote
}

proof fn lemma_step(v: CutoverView, reply: ReplyView)
    requires
        v.wf(),
        answers(v.step, reply),
        v.after(reply) is Ok,
        early(v.step) ==> !v.pointed,
    ensures
        steps_to(v, reply, v.after(reply)->Ok_0),
{
}

proof fn lemma_trace_step(
    start: CutoverView,
    replies: Seq<ReplyView>,
    v: CutoverView,
    w: CutoverView,
)
    requires
        replies.len() > 0,
        reached(start, replies.drop_last()) == Ok::<CutoverView, Refusal>(v),
        traced(start, replies.drop_last(), v),
        w.wf(),
        steps_to(v, replies.last(), w),
    ensures
        traced(start, replies, w),
{
    let before = replies.drop_last();
    let last = replies.len() - 1;
    let reply = replies.last();
    lemma_longer(start, replies);
    assert(replies.take(last) =~= before);
    assert(replies[last] == reply);
    if w.pointers.len() > 0 {
        if w.pointers == v.pointers {
            let k = choose|k: int| read_at(start, before, k, v.pointers);
            assert(read_at(start, replies, k, w.pointers));
        } else {
            assert(read_at(start, replies, last, w.pointers));
        }
    }
    if w.pointed {
        if v.pointed {
            let k = choose|k: int| pointed_by(start, before, k, v.id());
            assert(pointed_by(start, replies, k, w.id()));
        } else if v.step == Step::InstallPointer && reply is Done {
            assert(pointed_by(start, replies, last, w.id()));
        } else {
            let k = choose|k: int| read_at(start, before, k, v.pointers);
            assert(read_at(start, replies, k, v.pointers));
            assert(pointed_by(start, replies, k, w.id()));
        }
    }
}

proof fn lemma_traced(start: CutoverView, replies: Seq<ReplyView>)
    requires
        is_start(start),
        reached(start, replies) is Ok,
    ensures
        traced(start, replies, reached(start, replies)->Ok_0),
    decreases replies.len(),
{
    if replies.len() > 0 {
        let before = replies.drop_last();
        lemma_traced(start, before);
        let v = reached(start, before)->Ok_0;
        lemma_after_keeps_wf(v, replies.last());
        lemma_step(v, replies.last());
        lemma_trace_step(start, replies, v, reached(start, replies)->Ok_0);
    }
}

/// Legacy data is removed only when the pointer names the copy: whatever the
/// replies were, before the first removal the pointer was installed, or was
/// found installed.
pub proof fn law_the_pointer_comes_before_removal(start: CutoverView, replies: Seq<ReplyView>)
    requires
        is_start(start),
        reached(start, replies) is Ok,
        removes_legacy(reached(start, replies)->Ok_0.step),
    ensures
        exists|k: int| pointed_by(start, replies, k, reached(start, replies)->Ok_0.id()),
{
    lemma_traced(start, replies);
}

/// The pointer is installed only when the legacy files are what was copied.
pub proof fn law_the_pointer_is_installed_on_an_exact_copy(v: CutoverView, reply: ReplyView)
    requires
        v.wf(),
        answers(v.step, reply),
        v.after(reply) is Ok,
        v.after(reply)->Ok_0.step == Step::InstallPointer,
    ensures
        v.step == Step::Recheck,
        reply is Files,
        same_files(reply->Files_0, v.files),
{
}

/// A migration fails as soon as a piece of work does, with the same failure.
pub proof fn law_a_failure_stops_the_migration(v: CutoverView, refusal: Refusal)
    ensures
        v.after(ReplyView::Failed(refusal)) == Err::<CutoverView, Refusal>(refusal),
{
}

/// A cleanup queues only files that the receipt lists with the fingerprint they
/// still have.
pub proof fn law_cleanup_queues_copied_files_only(v: CutoverView, files: Seq<FileHashView>)
    requires
        v.step == Step::TakeRemains,
        v.after(ReplyView::Files(files)) is Ok,
    ensures
        all_listed(files, v.files),
        v.after(ReplyView::Files(files))->Ok_0.queue == but_database(files),
{
}

/// Once the pointer names the Store, only cleanup is left: no later step copies
/// or replaces anything of it.
pub proof fn law_after_the_pointer_only_cleanup_is_left(v: CutoverView, reply: ReplyView)
    requires
        v.wf(),
        past_pointer(v.step),
        answers(v.step, reply),
        v.after(reply) is Ok,
    ensures
        past_pointer(v.after(reply)->Ok_0.step),
        v.after(reply)->Ok_0.progress == v.progress,
{
}

/// A retry without a pointer starts over from the legacy data: what an earlier
/// attempt staged or placed is gone before the copy begins.
pub proof fn law_a_retry_without_a_pointer_starts_over(v: CutoverView, reply: ReplyView)
    requires
        v.wf(),
        answers(v.step, reply),
        v.after(reply) is Ok,
    ensures
        v.step == Step::Observe(Boundary::Recorded) && v.pointers.len() == 0 ==> v.after(
            reply,
        )->Ok_0.step == Step::InspectSource,
        v.after(reply)->Ok_0.step == Step::CreateStage ==> {
            ||| v.step == Step::ProbeStore && reply == ReplyView::Present(false)
            ||| v.step == Step::RemoveStore && reply is Done
        },
        v.after(reply)->Ok_0.step == Step::ProbeStore ==> {
            ||| v.step == Step::ProbeStaged && reply == ReplyView::Leftover(LeftoverView::Missing)
            ||| v.step == Step::ClearStaged && reply is Done
            ||| v.step == Step::RemoveStaged && reply is Done
        },
{
}

/// Before there is a record, a run has none; and where it runs stays.
proof fn lemma_unrecorded(start: CutoverView, replies: Seq<ReplyView>)
    requires
        is_start(start),
        reached(start, replies) is Ok,
    ensures
        ({
            let v = reached(start, replies)->Ok_0;
            &&& unrecorded(v.step) ==> v.progress is None
            &&& v.root == start.root
            &&& v.common == start.common
        }),
    decreases replies.len(),
{
    if replies.len() > 0 {
        lemma_unrecorded(start, replies.drop_last());
    }
}

/// A record that a run has read or drawn stays to its end, and so does where it
/// runs: the Store's ID and the path of its database do not change.
pub proof fn law_the_record_stays(start: CutoverView, replies: Seq<ReplyView>, k: int)
    requires
        is_start(start),
        reached(start, replies) is Ok,
        0 <= k <= replies.len(),
        reached(start, replies.take(k)) is Ok ==> reached(start, replies.take(k))->Ok_0.progress
            is Some,
    ensures
        reached(start, replies.take(k)) is Ok,
        ({
            let then = reached(start, replies.take(k))->Ok_0;
            let now = reached(start, replies)->Ok_0;
            &&& now.progress == then.progress
            &&& now.id() == then.id()
            &&& now.root == start.root
            &&& now.common == start.common
        }),
    decreases replies.len(),
{
    if k == replies.len() {
        assert(replies.take(k) =~= replies);
        lemma_unrecorded(start, replies);
    } else {
        let before = replies.drop_last();
        assert(before.take(k) =~= replies.take(k));
        law_the_record_stays(start, before, k);
        lemma_unrecorded(start, before);
        lemma_unrecorded(start, replies);
    }
}

/// Whether the reply at place `k` gave the record.
pub open spec fn record_read_at(
    start: CutoverView,
    replies: Seq<ReplyView>,
    k: int,
    record: ProgressView,
) -> bool {
    &&& 0 <= k < replies.len()
    &&& reached(start, replies.take(k)) matches Ok(v) && v.step == Step::ReadProgress
    &&& replies[k] matches ReplyView::Progressed(read, _) && read == Ok::<ProgressView, Refusal>(
        record,
    )
}

/// A run that reads the record of an earlier one goes on with the Store that it
/// names, whatever came of the earlier run and whatever else is replied: its ID
/// and the path of its database are those of the earlier run.
pub proof fn law_a_retry_goes_on_with_the_recorded_store(
    start: CutoverView,
    first: Seq<ReplyView>,
    second: Seq<ReplyView>,
    k: int,
)
    requires
        is_start(start),
        reached(start, first) is Ok,
        reached(start, first)->Ok_0.progress is Some,
        reached(start, second) is Ok,
        record_read_at(start, second, k, reached(start, first)->Ok_0.progress->0),
    ensures
        reached(start, second)->Ok_0.progress == reached(start, first)->Ok_0.progress,
        reached(start, second)->Ok_0.id() == reached(start, first)->Ok_0.id(),
        reached(start, second)->Ok_0.root == reached(start, first)->Ok_0.root,
        reached(start, second)->Ok_0.common == reached(start, first)->Ok_0.common,
{
    let with = second.take(k + 1);
    assert(with.drop_last() =~= second.take(k));
    assert(with.last() == second[k]);
    lemma_prefix(start, second, k + 1);
    law_the_record_stays(start, second, k + 1);
    lemma_unrecorded(start, first);
}

/// A run that got somewhere got to every earlier place.
proof fn lemma_prefix(start: CutoverView, replies: Seq<ReplyView>, k: int)
    requires
        reached(start, replies) is Ok,
        0 <= k <= replies.len(),
    ensures
        reached(start, replies.take(k)) is Ok,
    decreases replies.len(),
{
    if k == replies.len() {
        assert(replies.take(k) =~= replies);
    } else {
        assert(replies.drop_last().take(k) =~= replies.take(k));
        lemma_prefix(start, replies.drop_last(), k);
    }
}

} // verus!
