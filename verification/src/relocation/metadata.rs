//! What a migration leaves on disk about itself: its progress record and the
//! receipt of the files it copies.

use vstd::prelude::*;

use crate::association::{Error, Probe, ProbeView, Refusal, StoreId};
use crate::paths::{below, is_rooted, join, names, names_of, rooted, same_path, same_place, spread};
use crate::select::{lemma_filter_all, lemma_filter_none, lemma_filter_step};
use crate::text::{join2, same_text};

verus! {

/// A migration under way, as recorded beside the legacy data.
#[derive(Debug)]
pub struct Progress {
    pub version: u32,
    pub store_id: StoreId,
    pub token: StoreId,
    pub common: String,
    pub root: String,
}

/// A migration under way, texts as characters.
#[verifier::ext_equal]
pub struct ProgressView {
    pub version: u32,
    pub store_id: Seq<char>,
    pub token: Seq<char>,
    pub common: Seq<char>,
    pub root: Seq<char>,
}

impl View for Progress {
    type V = ProgressView;

    open spec fn view(&self) -> ProgressView {
        ProgressView {
            version: self.version,
            store_id: self.store_id@,
            token: self.token@,
            common: self.common@,
            root: self.root@,
        }
    }
}

impl ProgressView {
    /// Whether two records speak of the same migration.
    pub open spec fn same(self, other: ProgressView) -> bool {
        &&& self.version == other.version
        &&& self.store_id == other.store_id
        &&& self.token == other.token
        &&& same_place(self.common, other.common)
        &&& same_place(self.root, other.root)
    }

    /// Whether the record fits the locations at hand.
    pub open spec fn fits(self, common: Seq<char>, root: Seq<char>) -> bool {
        self.version == 1 && same_place(self.common, common) && same_place(self.root, root)
    }
}

/// A file of the legacy Store, with the fingerprint of what it held.
#[derive(Debug)]
pub struct FileHash {
    pub name: String,
    pub hash: String,
}

/// A file of the legacy Store, texts as characters.
#[verifier::ext_equal]
pub struct FileHashView {
    pub name: Seq<char>,
    pub hash: Seq<char>,
}

impl View for FileHash {
    type V = FileHashView;

    open spec fn view(&self) -> FileHashView {
        FileHashView { name: self.name@, hash: self.hash@ }
    }
}

/// The files, texts as characters.
pub open spec fn hashes(files: Seq<FileHash>) -> Seq<FileHashView> {
    files.map_values(|f: FileHash| f@)
}

/// What a migration copies: its own record, and every file with its
/// fingerprint.
#[derive(Debug)]
pub struct Receipt {
    pub progress: Progress,
    pub files: Vec<FileHash>,
}

/// What a migration copies, texts as characters.
#[verifier::ext_equal]
pub struct ReceiptView {
    pub progress: ProgressView,
    pub files: Seq<FileHashView>,
}

impl View for Receipt {
    type V = ReceiptView;

    open spec fn view(&self) -> ReceiptView {
        ReceiptView { progress: self.progress@, files: hashes(self.files@) }
    }
}

impl Progress {
    /// Whether two records speak of the same migration.
    pub fn is_same(&self, other: &Progress) -> (r: bool)
        ensures
            r == self@.same(other@),
    {
        self.version == other.version && same_text(self.store_id.text(), other.store_id.text())
            && same_text(self.token.text(), other.token.text()) && same_path(
            self.common.as_str(),
            other.common.as_str(),
        ) && same_path(self.root.as_str(), other.root.as_str())
    }

    /// Another copy of the record.
    pub fn copy(&self) -> (r: Progress)
        ensures
            r@ == self@,
    {
        Progress {
            version: self.version,
            store_id: self.store_id.copy(),
            token: self.token.copy(),
            common: self.common.clone(),
            root: self.root.clone(),
        }
    }
}

/// A failure of the migration itself.
pub fn fault(message: &str) -> (r: Error)
    ensures
        r@ == Refusal::Migration(message@),
{
    Error::Migration(message.to_owned())
}

/// Whether a regular file stands at `path`.
pub open spec fn is_regular(probe: ProbeView, path: Seq<char>) -> Result<(), Refusal> {
    match probe {
        ProbeView::File => Ok(()),
        ProbeView::Absent(text) => Err(Refusal::Io(text)),
        ProbeView::Unreadable(text) => Err(Refusal::Io(text)),
        _ => Err(Refusal::Migration("expected a regular file: "@ + path)),
    }
}

/// Whether a regular file stands at `path`.
pub fn regular(probe: &Probe, path: &str) -> (r: Result<(), Error>)
    ensures
        match r {
            Ok(()) => is_regular(probe@, path@) is Ok,
            Err(error) => is_regular(probe@, path@) == Err::<(), Refusal>(error@),
        },
{
    match probe {
        Probe::File => Ok(()),
        Probe::Absent(text) => Err(Error::Io(text.as_str().to_owned())),
        Probe::Unreadable(text) => Err(Error::Io(text.as_str().to_owned())),
        _ => {
            let message = join2("expected a regular file: ", path);
            Err(Error::Migration(message))
        },
    }
}

/// Whether a path below the legacy Store is one of its files.
pub open spec fn belongs(name: Seq<char>) -> bool {
    ||| name == "tk.db"@
    ||| name == "remote.lock"@
    ||| name == "tk.db-journal"@
    ||| !rooted(name) && names(name).len() == 2 && names(name)[0] == "backups"@ && names(name)[1]
        != ".."@
}

/// Whether a path below the legacy Store stands in its backup directory.
pub open spec fn in_backups(name: Seq<char>) -> bool {
    !rooted(name) && names(name).len() > 0 && names(name)[0] == "backups"@
}

fn is_backup(name: &str) -> (r: bool)
    ensures
        r == in_backups(name@),
{
    if is_rooted(name) {
        return false;
    }
    let parts = names_of(name);
    proof {
        assert(spread(parts@).len() == parts@.len());
    }
    if parts.len() == 0 {
        return false;
    }
    proof {
        assert(spread(parts@)[0] == parts@[0]@);
    }
    same_text(parts[0].as_str(), "backups")
}

/// The files that are copied as they are, beside the image of the database: the
/// backups.
pub open spec fn backups(files: Seq<FileHashView>) -> Seq<FileHashView> {
    files.filter(|file: FileHashView| in_backups(file.name))
}

/// The names of the files that are copied as they are.
pub fn backups_of(files: &Vec<FileHash>) -> (r: Vec<String>)
    ensures
        spread(r@) == backups(hashes(files@)).map_values(|file: FileHashView| file.name),
{
    let ghost all = hashes(files@);
    let ghost cond = |file: FileHashView| in_backups(file.name);
    let ghost name = |file: FileHashView| file.name;
    let mut out: Vec<String> = Vec::new();
    let mut i: usize = 0;
    proof {
        lemma_filter_none(all, cond);
        assert(spread(out@) =~= all.take(0).filter(cond).map_values(name));
    }
    while i < files.len()
        invariant
            0 <= i <= files@.len(),
            all == hashes(files@),
            cond == (|file: FileHashView| in_backups(file.name)),
            name == (|file: FileHashView| file.name),
            spread(out@) == all.take(i as int).filter(cond).map_values(name),
        decreases files@.len() - i,
    {
        let ghost before = out@;
        proof {
            lemma_filter_step(all, cond, i as int);
            assert(all[i as int] == files@[i as int]@);
        }
        if is_backup(files[i].name.as_str()) {
            out.push(files[i].name.clone());
            proof {
                let kept = all.take(i as int).filter(cond);
                assert(spread(out@) =~= spread(before).push(all[i as int].name));
                assert(kept.push(all[i as int]).map_values(name) =~= kept.map_values(name).push(
                    all[i as int].name,
                ));
            }
        }
        i = i + 1;
    }
    proof {
        lemma_filter_all(all, cond);
    }
    out
}

/// Whether a path below the legacy Store is one of its files: the database, its
/// journal, the lock, or a backup.
pub fn allowed(name: &str) -> (r: bool)
    ensures
        r == belongs(name@),
{
    if same_text(name, "tk.db") || same_text(name, "remote.lock") || same_text(
        name,
        "tk.db-journal",
    ) {
        return true;
    }
    let parts = names_of(name);
    proof {
        assert(spread(parts@).len() == parts@.len());
    }
    if is_rooted(name) || parts.len() != 2 {
        return false;
    }
    proof {
        assert(spread(parts@)[0] == parts@[0]@);
        assert(spread(parts@)[1] == parts@[1]@);
    }
    same_text(parts[0].as_str(), "backups") && !same_text(parts[1].as_str(), "..")
}

/// Where the copy of a migration is put together.
pub open spec fn staging(progress: ProgressView) -> Seq<char> {
    below(below(progress.root, ".migrations"@), progress.store_id)
}

/// Where the copy of a migration is put together.
pub fn stage(progress: &Progress) -> (r: String)
    ensures
        r@ == staging(progress@),
{
    let all = join(progress.root.as_str(), ".migrations");
    join(all.as_str(), progress.store_id.text())
}

/// A record that was read, as values.
pub open spec fn progress_read(read: Result<Progress, Error>) -> Result<ProgressView, Refusal> {
    match read {
        Ok(progress) => Ok(progress@),
        Err(error) => Err(error@),
    }
}

/// The record of the migration at hand: one that fits the locations.
pub open spec fn recorded(
    read: Result<ProgressView, Refusal>,
    common: Seq<char>,
    root: Seq<char>,
) -> Result<ProgressView, Refusal> {
    match read {
        Err(refusal) => Err(refusal),
        Ok(progress) => if progress.fits(common, root) {
            Ok(progress)
        } else {
            Err(
                Refusal::Migration("migration progress disagrees with the current locations"@),
            )
        },
    }
}

/// The record of the migration at hand; `root` is the canonical directory of
/// Stores.
pub fn read_progress(read: Result<Progress, Error>, common: &str, root: &str) -> (r: Result<
    Progress,
    Error,
>)
    ensures
        progress_read(r) == recorded(progress_read(read), common@, root@),
{
    match read {
        Err(error) => Err(error),
        Ok(progress) => {
            if progress.version == 1 && same_path(progress.common.as_str(), common) && same_path(
                progress.root.as_str(),
                root,
            ) {
                Ok(progress)
            } else {
                Err(fault("migration progress disagrees with the current locations"))
            }
        },
    }
}

/// A receipt that was read, as values.
pub open spec fn receipt_read(read: Result<Receipt, Error>) -> Result<ReceiptView, Refusal> {
    match read {
        Ok(receipt) => Ok(receipt@),
        Err(error) => Err(error@),
    }
}

/// Whether every file of a receipt is one of a legacy Store.
pub open spec fn all_belong(files: Seq<FileHashView>) -> bool {
    forall|i: int| 0 <= i < files.len() ==> belongs((#[trigger] files[i]).name)
}

/// The receipt in a destination: it must be a directory, and the receipt must
/// be this migration's and list nothing foreign.
pub open spec fn receipt_in(
    directory: ProbeView,
    read: Result<ReceiptView, Refusal>,
    progress: ProgressView,
) -> Result<ReceiptView, Refusal> {
    match directory {
        ProbeView::Absent(text) => Err(Refusal::Io(text)),
        ProbeView::Unreadable(text) => Err(Refusal::Io(text)),
        ProbeView::Directory => match read {
            Err(refusal) => Err(refusal),
            Ok(receipt) => if receipt.progress.same(progress) && all_belong(receipt.files) {
                Ok(receipt)
            } else {
                Err(Refusal::Migration("destination does not belong to this migration"@))
            },
        },
        _ => Err(Refusal::Migration("migration destination is not a directory"@)),
    }
}

fn do_belong(files: &Vec<FileHash>) -> (r: bool)
    ensures
        r == all_belong(hashes(files@)),
{
    let ghost all = hashes(files@);
    let mut i: usize = 0;
    while i < files.len()
        invariant
            0 <= i <= files@.len(),
            all == hashes(files@),
            forall|k: int| 0 <= k < i ==> belongs((#[trigger] all[k]).name),
        decreases files@.len() - i,
    {
        if !allowed(files[i].name.as_str()) {
            proof {
                assert(!belongs(all[i as int].name));
            }
            return false;
        }
        i = i + 1;
    }
    true
}

/// The receipt in a destination.
pub fn read_receipt(directory: &Probe, read: Result<Receipt, Error>, progress: &Progress) -> (r: Result<
    Receipt,
    Error,
>)
    ensures
        receipt_read(r) == receipt_in(directory@, receipt_read(read), progress@),
{
    match directory {
        Probe::Absent(text) => Err(Error::Io(text.as_str().to_owned())),
        Probe::Unreadable(text) => Err(Error::Io(text.as_str().to_owned())),
        Probe::Directory => match read {
            Err(error) => Err(error),
            Ok(receipt) => {
                if receipt.progress.is_same(progress) && do_belong(&receipt.files) {
                    Ok(receipt)
                } else {
                    Err(fault("destination does not belong to this migration"))
                }
            },
        },
        _ => Err(fault("migration destination is not a directory")),
    }
}

/// Whether anything of a migration is there: the legacy data, else the other.
pub open spec fn either(first: ProbeView, second: ProbeView) -> Result<bool, Refusal> {
    match first.present() {
        Err(refusal) => Err(refusal),
        Ok(true) => Ok(true),
        Ok(false) => second.present(),
    }
}

/// Whether a migration is pending: legacy data or a record of one is there.
pub fn pending(source: &Probe, record: &Probe) -> (r: Result<bool, Error>)
    ensures
        match r {
            Ok(found) => either(source@, record@) == Ok::<bool, Refusal>(found),
            Err(error) => either(source@, record@) == Err::<bool, Refusal>(error@),
        },
{
    match source.is_there() {
        Err(error) => Err(error),
        Ok(true) => Ok(true),
        Ok(false) => record.is_there(),
    }
}

/// An image that a migration has not finished cannot be adopted as an orphaned
/// Store.
pub fn refuse_pending(marker: &Probe) -> (r: Result<(), Error>)
    ensures
        match marker@.present() {
            Err(refusal) => r is Err && r->Err_0@ == refusal,
            Ok(true) => r is Err && r->Err_0@ == Refusal::Migration(
                "migration is pending at its source Git Common Directory"@,
            ),
            Ok(false) => r is Ok,
        },
{
    match marker.is_there() {
        Err(error) => Err(error),
        Ok(true) => Err(fault("migration is pending at its source Git Common Directory")),
        Ok(false) => Ok(()),
    }
}

/// What is read of a migration when a Store is opened.
#[derive(Debug)]
pub struct Traces {
    /// The legacy data.
    pub source: Probe,
    /// The receipt in the Store.
    pub marker: Probe,
    /// The record of the migration.
    pub progress: Result<Progress, Error>,
    /// The Store's directory.
    pub directory: Probe,
    /// What the receipt says.
    pub receipt: Result<Receipt, Error>,
}

/// What is read of a migration when a Store is opened, as values.
pub struct TracesView {
    pub source: ProbeView,
    pub marker: ProbeView,
    pub progress: Result<ProgressView, Refusal>,
    pub directory: ProbeView,
    pub receipt: Result<ReceiptView, Refusal>,
}

impl View for Traces {
    type V = TracesView;

    open spec fn view(&self) -> TracesView {
        TracesView {
            source: self.source@,
            marker: self.marker@,
            progress: progress_read(self.progress),
            directory: self.directory@,
            receipt: receipt_read(self.receipt),
        }
    }
}

/// Whether a repository may open the Store `id` as far as migrations go.
pub open spec fn accessible(id: Seq<char>, common: Seq<char>, root: Seq<char>, traces: TracesView) -> Result<
    (),
    Refusal,
> {
    match either(traces.source, traces.marker) {
        Err(refusal) => Err(refusal),
        Ok(false) => Ok(()),
        Ok(true) => match recorded(traces.progress, common, root) {
            Err(refusal) => Err(refusal),
            Ok(progress) => if progress.store_id != id {
                Err(Refusal::Legacy)
            } else {
                match receipt_in(traces.directory, traces.receipt, progress) {
                    Err(refusal) => Err(refusal),
                    Ok(_) => Ok(()),
                }
            },
        },
    }
}

/// A pointer can open a migrated Store during cleanup only with both the record
/// and the receipt.
pub fn access(id: &StoreId, common: &str, root: &str, traces: Traces) -> (r: Result<(), Error>)
    ensures
        match r {
            Ok(()) => accessible(id@, common@, root@, traces@) is Ok,
            Err(error) => accessible(id@, common@, root@, traces@) == Err::<(), Refusal>(error@),
        },
{
    match pending(&traces.source, &traces.marker) {
        Err(error) => {
            return Err(error);
        },
        Ok(found) => {
            if !found {
                return Ok(());
            }
        },
    }
    match read_progress(traces.progress, common, root) {
        Err(error) => Err(error),
        Ok(progress) => {
            if !same_text(progress.store_id.text(), id.text()) {
                return Err(Error::Legacy);
            }
            match read_receipt(&traces.directory, traces.receipt, &progress) {
                Err(error) => Err(error),
                Ok(_) => Ok(()),
            }
        },
    }
}

/// While legacy data is there, a Store opens only with the record and the
/// receipt of the very migration that made it.
pub proof fn law_access_during_cleanup_needs_both_receipts(
    id: Seq<char>,
    common: Seq<char>,
    root: Seq<char>,
    traces: TracesView,
)
    requires
        traces.source.present() == Ok::<bool, Refusal>(true),
        accessible(id, common, root, traces) is Ok,
    ensures
        traces.progress is Ok,
        traces.progress->Ok_0.store_id == id,
        traces.progress->Ok_0.fits(common, root),
        traces.receipt is Ok,
        traces.receipt->Ok_0.progress.same(traces.progress->Ok_0),
        all_belong(traces.receipt->Ok_0.files),
{
}

} // verus!
