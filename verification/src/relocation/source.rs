//! The files of a legacy Store: which there are, what they hold, and whether
//! they are still what was copied.

use vstd::prelude::*;

use crate::association::{Error, Refusal};
use crate::paths::{below, join, spread};
use crate::relocation::metadata::{allowed, belongs, fault, hashes, FileHash, FileHashView};
use crate::text::{hex, hex_text, join2, same_text};

verus! {

/// The SHA-256 digest of some bytes, as the `sha2` crate computes it.
pub uninterp spec fn sha256(bytes: Seq<u8>) -> Seq<u8>;

/// `sha2::Sha256::digest`: the SHA-256 digest of the bytes.
#[verifier::external_body]
fn digest(bytes: &[u8]) -> (r: [u8; 32])
    ensures
        r@ == sha256(bytes@),
{
    <sha2::Sha256 as sha2::Digest>::digest(bytes).into()
}

/// The fingerprint of what a file holds: its SHA-256 digest in lower-case
/// hexadecimal.
pub fn fingerprint(bytes: &[u8]) -> (r: String)
    ensures
        r@ == hex(sha256(bytes@)),
        r@.len() == 64,
{
    let sum = digest(bytes);
    hex_text(&sum)
}

/// What tells one file from another, and how many names it has.
#[derive(Clone, Copy, Debug, PartialEq, Eq)]
pub struct FileIdentity {
    pub device: u64,
    pub inode: u64,
    pub links: u64,
}

/// Whether a path no longer leads to the file that is held, or to it alone.
pub fn has_moved(held: FileIdentity, current: FileIdentity) -> (r: bool)
    ensures
        r == (held.device != current.device || held.inode != current.inode || current.links != 1),
{
    held.device != current.device || held.inode != current.inode || current.links != 1
}

/// Whether a legacy database with this many names can be held: only under one
/// name does its lock keep everybody out.
pub fn refuse_links(links: u64) -> (r: Result<(), Error>)
    ensures
        match r {
            Ok(()) => links == 1,
            Err(error) => links != 1 && error@ == Refusal::Migration(
                "legacy database has hard links; make an independent copy before migration"@,
            ),
        },
{
    if links != 1 {
        return Err(
            fault("legacy database has hard links; make an independent copy before migration"),
        );
    }
    Ok(())
}

/// Whether a held database has ended its write-ahead log, by the journal mode
/// read back.
pub fn require_rollback_journal(mode: &str) -> (r: Result<(), Error>)
    ensures
        match r {
            Ok(()) => mode@ == "delete"@,
            Err(error) => mode@ != "delete"@ && error@ == Refusal::Migration(
                "legacy database could not leave WAL mode"@,
            ),
        },
{
    if !same_text(mode, "delete") {
        return Err(fault("legacy database could not leave WAL mode"));
    }
    Ok(())
}

/// What stands at an entry of the legacy Store's directory.
#[derive(Debug)]
pub enum Content {
    /// A regular file, with what it holds.
    File(Result<Vec<u8>, Error>),
    /// A directory, with its entries.
    Directory(Result<Vec<BackupEntry>, Error>),
    /// Neither.
    Other,
    /// It could not be told.
    Unreadable(Error),
}

/// An entry of the backup directory.
#[derive(Debug)]
pub struct BackupEntry {
    pub name: String,
    pub content: BackupContent,
}

/// What stands at an entry of the backup directory.
#[derive(Debug)]
pub enum BackupContent {
    File(Result<Vec<u8>, Error>),
    Other,
    Unreadable(Error),
}

/// An entry of the legacy Store's directory.
#[derive(Debug)]
pub struct SourceEntry {
    pub name: String,
    pub content: Content,
}

/// A file that was read, as values.
pub open spec fn bytes_read(read: Result<Vec<u8>, Error>) -> Result<Seq<u8>, Refusal> {
    match read {
        Ok(bytes) => Ok(bytes@),
        Err(error) => Err(error@),
    }
}

/// The fingerprint of a regular file at `path`, or why there is none.
pub open spec fn backup_hash(content: BackupContent, path: Seq<char>) -> Result<Seq<char>, Refusal> {
    match content {
        BackupContent::File(read) => match bytes_read(read) {
            Ok(bytes) => Ok(hex(sha256(bytes))),
            Err(refusal) => Err(refusal),
        },
        BackupContent::Other => Err(Refusal::Migration("expected a regular file: "@ + path)),
        BackupContent::Unreadable(error) => Err(error@),
    }
}

/// The fingerprint of a regular file at `path`, or why there is none.
pub open spec fn entry_hash(content: Content, path: Seq<char>) -> Result<Seq<char>, Refusal> {
    match content {
        Content::File(read) => match bytes_read(read) {
            Ok(bytes) => Ok(hex(sha256(bytes))),
            Err(refusal) => Err(refusal),
        },
        Content::Unreadable(error) => Err(error@),
        _ => Err(Refusal::Migration("expected a regular file: "@ + path)),
    }
}

/// The fingerprints of the first `count` backups; the first that has none ends
/// the listing.
pub open spec fn backup_hashes(dir: Seq<char>, entries: Seq<BackupEntry>, count: int) -> Result<
    Seq<FileHashView>,
    Refusal,
>
    decreases count,
{
    if count <= 0 {
        Ok(Seq::empty())
    } else {
        match backup_hashes(dir, entries, count - 1) {
            Err(refusal) => Err(refusal),
            Ok(before) => {
                let entry = entries[count - 1];
                match backup_hash(entry.content, below(dir, entry.name@)) {
                    Err(refusal) => Err(refusal),
                    Ok(hash) => Ok(
                        before.push(
                            FileHashView { name: below("backups"@, entry.name@), hash },
                        ),
                    ),
                }
            },
        }
    }
}

/// The source of a migration: where it is, whether the database at its path is
/// the one that is held locked, and whether the Remote lock is held.
pub struct Held {
    pub source: Seq<char>,
    pub moved: bool,
    pub remote: bool,
}

/// What one entry adds to the inventory.
pub open spec fn entry_files(held: Held, entry: SourceEntry) -> Result<Seq<FileHashView>, Refusal> {
    let name = entry.name@;
    let path = below(held.source, name);
    if name == "backups"@ && entry.content is Directory {
        match entry.content->Directory_0 {
            Err(error) => Err(error@),
            Ok(files) => backup_hashes(path, files@, files@.len() as int),
        }
    } else if name == "backups"@ && entry.content is Unreadable {
        Err(entry.content->Unreadable_0@)
    } else if !belongs(name) {
        Err(Refusal::Migration("unexpected legacy entry: "@ + path))
    } else if name == "tk.db"@ && held.moved && entry.content is File {
        Err(Refusal::Migration("legacy database path changed while locked"@))
    } else if name == "remote.lock"@ && !held.remote && entry.content is File {
        Err(Refusal::Migration("legacy Remote lock appeared during migration"@))
    } else {
        match entry_hash(entry.content, path) {
            Err(refusal) => Err(refusal),
            Ok(hash) => Ok(seq![FileHashView { name, hash }]),
        }
    }
}

/// The inventory of the first `count` entries; the first that does not belong
/// ends it.
pub open spec fn inventoried(held: Held, entries: Seq<SourceEntry>, count: int) -> Result<
    Seq<FileHashView>,
    Refusal,
>
    decreases count,
{
    if count <= 0 {
        Ok(Seq::empty())
    } else {
        match inventoried(held, entries, count - 1) {
            Err(refusal) => Err(refusal),
            Ok(before) => match entry_files(held, entries[count - 1]) {
                Err(refusal) => Err(refusal),
                Ok(more) => Ok(before + more),
            },
        }
    }
}

/// Files that were listed, as values.
pub open spec fn files_read(read: Result<Vec<FileHash>, Error>) -> Result<Seq<FileHashView>, Refusal> {
    match read {
        Ok(files) => Ok(hashes(files@)),
        Err(error) => Err(error@),
    }
}

fn not_regular(path: &str) -> (r: Error)
    ensures
        r@ == Refusal::Migration("expected a regular file: "@ + path@),
{
    let message = join2("expected a regular file: ", path);
    fault(message.as_str())
}

/// Another report of the same failure.
pub(crate) fn same_error(error: &Error) -> (r: Error)
    ensures
        r@ == error@,
{
    match error {
        Error::DataRoot => Error::DataRoot,
        Error::InvalidPointer => Error::InvalidPointer,
        Error::DuplicatePointer => Error::DuplicatePointer,
        Error::Legacy => Error::Legacy,
        Error::Migration(text) => Error::Migration(text.clone()),
        Error::Recovery => Error::Recovery,
        Error::Healthy => Error::Healthy,
        Error::Ownership => Error::Ownership,
        Error::Manifest => Error::Manifest,
        Error::AssociationMismatch => Error::AssociationMismatch,
        Error::Collision => Error::Collision,
        Error::Busy => Error::Busy,
        Error::Git(text) => Error::Git(text.clone()),
        Error::Io(text) => Error::Io(text.clone()),
    }
}

fn backup_inventory(dir: &str, entries: &Vec<BackupEntry>) -> (r: Result<Vec<FileHash>, Error>)
    ensures
        files_read(r) == backup_hashes(dir@, entries@, entries@.len() as int),
{
    let mut files: Vec<FileHash> = Vec::new();
    let mut i: usize = 0;
    proof {
        assert(hashes(files@) =~= Seq::<FileHashView>::empty());
    }
    while i < entries.len()
        invariant
            0 <= i <= entries@.len(),
            backup_hashes(dir@, entries@, i as int) == Ok::<Seq<FileHashView>, Refusal>(
                hashes(files@),
            ),
        decreases entries@.len() - i,
    {
        let entry = &entries[i];
        let path = join(dir, entry.name.as_str());
        proof {
            if backup_hashes(dir@, entries@, i + 1) is Err {
                lemma_backups_stop(dir@, entries@, i + 1, entries@.len() as int);
            }
        }
        let hash = match &entry.content {
            BackupContent::File(Ok(bytes)) => fingerprint(bytes.as_slice()),
            BackupContent::File(Err(error)) => {
                return Err(same_error(error));
            },
            BackupContent::Other => {
                return Err(not_regular(path.as_str()));
            },
            BackupContent::Unreadable(error) => {
                return Err(same_error(error));
            },
        };
        let ghost before = hashes(files@);
        let file = FileHash { name: join("backups", entry.name.as_str()), hash };
        let ghost view = file@;
        files.push(file);
        proof {
            assert(hashes(files@) =~= before.push(view));
        }
        i = i + 1;
    }
    Ok(files)
}

proof fn lemma_backups_stop(dir: Seq<char>, entries: Seq<BackupEntry>, at: int, count: int)
    requires
        at <= count,
        backup_hashes(dir, entries, at) is Err,
    ensures
        backup_hashes(dir, entries, count) == backup_hashes(dir, entries, at),
    decreases count - at,
{
    if at < count {
        lemma_backups_stop(dir, entries, at, count - 1);
    }
}

proof fn lemma_inventory_stops(held: Held, entries: Seq<SourceEntry>, at: int, count: int)
    requires
        at <= count,
        inventoried(held, entries, at) is Err,
    ensures
        inventoried(held, entries, count) == inventoried(held, entries, at),
    decreases count - at,
{
    if at < count {
        lemma_inventory_stops(held, entries, at, count - 1);
    }
}

fn entry_inventory(
    source: &str,
    entry: &SourceEntry,
    moved: bool,
    remote: bool,
) -> (r: Result<Vec<FileHash>, Error>)
    ensures
        files_read(r) == entry_files(Held { source: source@, moved, remote }, *entry),
{
    let name = entry.name.as_str();
    let path = join(source, name);
    if same_text(name, "backups") {
        match &entry.content {
            Content::Directory(Ok(files)) => {
                return backup_inventory(path.as_str(), files);
            },
            Content::Directory(Err(error)) => {
                return Err(same_error(error));
            },
            Content::Unreadable(error) => {
                return Err(same_error(error));
            },
            _ => {},
        }
    }
    if !allowed(name) {
        let message = join2("unexpected legacy entry: ", path.as_str());
        return Err(fault(message.as_str()));
    }
    match &entry.content {
        Content::File(read) => {
            if same_text(name, "tk.db") && moved {
                return Err(fault("legacy database path changed while locked"));
            }
            if same_text(name, "remote.lock") && !remote {
                return Err(fault("legacy Remote lock appeared during migration"));
            }
            match read {
                Ok(bytes) => {
                    let mut files: Vec<FileHash> = Vec::new();
                    let file = FileHash {
                        name: entry.name.clone(),
                        hash: fingerprint(bytes.as_slice()),
                    };
                    let ghost view = file@;
                    files.push(file);
                    proof {
                        assert(hashes(files@) =~= seq![view]);
                    }
                    Ok(files)
                },
                Err(error) => Err(same_error(error)),
            }
        },
        Content::Unreadable(error) => Err(same_error(error)),
        _ => Err(not_regular(path.as_str())),
    }
}

/// List the files of a legacy Store with their fingerprints: the database, which
/// must be the one held locked, the Remote lock, which must be held too, the
/// journal, and every backup. Anything else is refused.
pub fn inventory(source: &str, entries: &Vec<SourceEntry>, moved: bool, remote: bool) -> (r: Result<
    Vec<FileHash>,
    Error,
>)
    ensures
        files_read(r) == inventoried(
            Held { source: source@, moved, remote },
            entries@,
            entries@.len() as int,
        ),
{
    let ghost held = Held { source: source@, moved, remote };
    let mut files: Vec<FileHash> = Vec::new();
    let mut i: usize = 0;
    proof {
        assert(hashes(files@) =~= Seq::<FileHashView>::empty());
    }
    while i < entries.len()
        invariant
            0 <= i <= entries@.len(),
            held == (Held { source: source@, moved, remote }),
            inventoried(held, entries@, i as int) == Ok::<Seq<FileHashView>, Refusal>(hashes(files@)),
        decreases entries@.len() - i,
    {
        proof {
            if inventoried(held, entries@, i + 1) is Err {
                lemma_inventory_stops(held, entries@, i + 1, entries@.len() as int);
            }
        }
        let mut more = match entry_inventory(source, &entries[i], moved, remote) {
            Ok(more) => more,
            Err(error) => {
                return Err(error);
            },
        };
        let ghost before = files@;
        let ghost added = more@;
        files.append(&mut more);
        proof {
            assert(files@ =~= before + added);
            assert(hashes(files@) =~= hashes(before) + hashes(added));
        }
        i = i + 1;
    }
    Ok(files)
}

/// The fingerprint that a list has for a name: that of its last entry.
pub open spec fn found_in(files: Seq<FileHashView>, name: Seq<char>) -> Option<Seq<char>>
    decreases files.len(),
{
    if files.len() == 0 {
        None
    } else if files.last().name == name {
        Some(files.last().hash)
    } else {
        found_in(files.drop_last(), name)
    }
}

/// Whether two lists have the same files with the same fingerprints.
pub open spec fn same_files(a: Seq<FileHashView>, b: Seq<FileHashView>) -> bool {
    forall|name: Seq<char>| found_in(a, name) == #[trigger] found_in(b, name)
}

fn look_up<'a>(files: &'a Vec<FileHash>, name: &str) -> (r: Option<&'a str>)
    ensures
        match r {
            Some(hash) => found_in(hashes(files@), name@) == Some(hash@),
            None => found_in(hashes(files@), name@) is None,
        },
{
    let mut i: usize = files.len();
    let ghost all = hashes(files@);
    proof {
        assert(all.take(all.len() as int) =~= all);
    }
    while i > 0
        invariant
            0 <= i <= files@.len(),
            all == hashes(files@),
            found_in(all, name@) == found_in(all.take(i as int), name@),
        decreases i,
    {
        proof {
            assert(all.take(i as int).drop_last() =~= all.take(i - 1));
            assert(all.take(i as int).last() == files@[i - 1]@);
        }
        if same_text(files[i - 1].name.as_str(), name) {
            return Some(files[i - 1].hash.as_str());
        }
        i = i - 1;
    }
    None
}

/// Whether every file of `current` is in `listed` with the same fingerprint.
pub open spec fn all_listed(current: Seq<FileHashView>, listed: Seq<FileHashView>) -> bool {
    forall|i: int|
        0 <= i < current.len() ==> found_in(listed, (#[trigger] current[i]).name) == Some(
            current[i].hash,
        )
}

/// Whether every file of `current` is in `listed` with the same fingerprint.
pub fn are_listed(current: &Vec<FileHash>, listed: &Vec<FileHash>) -> (r: bool)
    ensures
        r == all_listed(hashes(current@), hashes(listed@)),
{
    let ghost all = hashes(current@);
    let mut i: usize = 0;
    while i < current.len()
        invariant
            0 <= i <= current@.len(),
            all == hashes(current@),
            forall|k: int|
                0 <= k < i ==> found_in(hashes(listed@), (#[trigger] all[k]).name) == Some(
                    all[k].hash,
                ),
        decreases current@.len() - i,
    {
        proof {
            assert(all[i as int] == current@[i as int]@);
        }
        let same = match look_up(listed, current[i].name.as_str()) {
            Some(hash) => same_text(hash, current[i].hash.as_str()),
            None => false,
        };
        if !same {
            return false;
        }
        i = i + 1;
    }
    true
}

/// Whether every file of `a` has the fingerprint in `b` that it has in `a`.
fn agrees(a: &Vec<FileHash>, b: &Vec<FileHash>) -> (r: bool)
    ensures
        r == (forall|i: int|
            0 <= i < a@.len() ==> found_in(hashes(a@), (#[trigger] a@[i]).name@) == found_in(
                hashes(b@),
                a@[i].name@,
            )),
{
    let mut i: usize = 0;
    while i < a.len()
        invariant
            0 <= i <= a@.len(),
            forall|k: int|
                0 <= k < i ==> found_in(hashes(a@), (#[trigger] a@[k]).name@) == found_in(
                    hashes(b@),
                    a@[k].name@,
                ),
        decreases a@.len() - i,
    {
        let x = look_up(a, a[i].name.as_str());
        let y = look_up(b, a[i].name.as_str());
        let same = match (x, y) {
            (Some(x), Some(y)) => same_text(x, y),
            (None, None) => true,
            _ => false,
        };
        if !same {
            proof {
                assert(found_in(hashes(a@), a@[i as int].name@) != found_in(
                    hashes(b@),
                    a@[i as int].name@,
                ));
            }
            return false;
        }
        i = i + 1;
    }
    true
}

proof fn lemma_found_is_listed(files: Seq<FileHash>, name: Seq<char>)
    requires
        found_in(hashes(files), name) is Some,
    ensures
        exists|i: int| 0 <= i < files.len() && (#[trigger] files[i]).name@ == name,
    decreases files.len(),
{
    let all = hashes(files);
    if all.last().name == name {
        assert(files[files.len() - 1].name@ == name);
    } else {
        let rest = files.drop_last();
        assert(hashes(rest) =~= all.drop_last());
        lemma_found_is_listed(rest, name);
        let i = choose|i: int| 0 <= i < rest.len() && (#[trigger] rest[i]).name@ == name;
        assert(files[i].name@ == name);
    }
}

/// Whether two lists have the same files with the same fingerprints.
pub fn are_same(a: &Vec<FileHash>, b: &Vec<FileHash>) -> (r: bool)
    ensures
        r == same_files(hashes(a@), hashes(b@)),
{
    let x = agrees(a, b);
    let y = agrees(b, a);
    proof {
        if x && y {
            assert forall|name: Seq<char>| found_in(hashes(a@), name) == #[trigger] found_in(
                hashes(b@),
                name,
            ) by {
                if found_in(hashes(a@), name) is Some {
                    lemma_found_is_listed(a@, name);
                }
                if found_in(hashes(b@), name) is Some {
                    lemma_found_is_listed(b@, name);
                }
            }
        } else if same_files(hashes(a@), hashes(b@)) {
            assert forall|i: int| 0 <= i < a@.len() implies found_in(
                hashes(a@),
                (#[trigger] a@[i]).name@,
            ) == found_in(hashes(b@), a@[i].name@) by {}
            assert forall|i: int| 0 <= i < b@.len() implies found_in(
                hashes(b@),
                (#[trigger] b@[i]).name@,
            ) == found_in(hashes(a@), b@[i].name@) by {}
        }
    }
    x && y
}

/// The files that a cleanup removes one by one: all but the database, which
/// goes last.
pub open spec fn but_database(files: Seq<FileHashView>) -> Seq<Seq<char>>
    decreases files.len(),
{
    if files.len() == 0 {
        Seq::empty()
    } else if files.last().name == "tk.db"@ {
        but_database(files.drop_last())
    } else {
        but_database(files.drop_last()).push(files.last().name)
    }
}

/// The files that a cleanup removes one by one.
pub fn removals(files: &Vec<FileHash>) -> (r: Vec<String>)
    ensures
        spread(r@) == but_database(hashes(files@)),
{
    let mut out: Vec<String> = Vec::new();
    let mut i: usize = 0;
    let ghost all = hashes(files@);
    proof {
        assert(all.take(0) =~= Seq::<FileHashView>::empty());
        assert(spread(out@) =~= but_database(all.take(0)));
    }
    while i < files.len()
        invariant
            0 <= i <= files@.len(),
            all == hashes(files@),
            spread(out@) == but_database(all.take(i as int)),
        decreases files@.len() - i,
    {
        proof {
            assert(all.take(i + 1).drop_last() =~= all.take(i as int));
            assert(all.take(i + 1).last() == files@[i as int]@);
        }
        let ghost before = spread(out@);
        if !same_text(files[i].name.as_str(), "tk.db") {
            out.push(files[i].name.clone());
            proof {
                assert(spread(out@) =~= before.push(files@[i as int].name@));
            }
        }
        i = i + 1;
    }
    proof {
        assert(all.take(all.len() as int) =~= all);
    }
    out
}

/// A cleanup removes only files that were copied: each one it removes is in the
/// receipt, and it never takes the database among them.
pub proof fn law_only_copied_files_are_removed(
    current: Seq<FileHashView>,
    listed: Seq<FileHashView>,
    i: int,
)
    requires
        all_listed(current, listed),
        0 <= i < but_database(current).len(),
    ensures
        found_in(listed, but_database(current)[i]) is Some,
        but_database(current)[i] != "tk.db"@,
    decreases current.len(),
{
    if current.len() > 0 {
        let rest = current.drop_last();
        assert(all_listed(rest, listed)) by {
            assert forall|k: int| 0 <= k < rest.len() implies found_in(
                listed,
                (#[trigger] rest[k]).name,
            ) == Some(rest[k].hash) by {
                assert(current[k] == rest[k]);
            }
        }
        if i < but_database(rest).len() {
            law_only_copied_files_are_removed(rest, listed, i);
        } else {
            assert(current[current.len() - 1] == current.last());
        }
    }
}

} // verus!
