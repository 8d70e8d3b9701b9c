//! Durable Repository Store identity and association validation.
//!
//! What the file system and Git report comes in as plain values; the rules
//! here decide what it means.

use vstd::prelude::*;

use crate::paths::{below, is_rooted, join, rooted, same_path, same_place, spread};
use crate::repository::create::{generate_internal_id, is_internal_id};
use crate::text::{chars_of, hex, hex_digit, join3, same_text};

verus! {

/// Whether a character is a lower-case hexadecimal digit.
pub open spec fn is_hex(c: char) -> bool {
    '0' <= c <= '9' || 'a' <= c <= 'f'
}

/// Whether a text is a Store ID: 32 lower-case hexadecimal digits.
pub open spec fn is_store_id(text: Seq<char>) -> bool {
    text.len() == 32 && forall|i: int| 0 <= i < text.len() ==> is_hex(#[trigger] text[i])
}

/// Opaque 128-bit Repository Store identity, encoded as 32 lower-case
/// hexadecimal digits.
#[derive(Debug)]
pub struct StoreId {
    text: String,
}

impl View for StoreId {
    type V = Seq<char>;

    closed spec fn view(&self) -> Seq<char> {
        self.text@
    }
}

/// Every internal ID is a Store ID.
pub proof fn law_an_internal_id_is_a_store_id(text: Seq<char>)
    requires
        is_internal_id(text),
    ensures
        is_store_id(text),
{
    let bytes = choose|bytes: Seq<u8>| bytes.len() == 16 && text == #[trigger] hex(bytes);
    assert forall|i: int| 0 <= i < text.len() implies is_hex(#[trigger] text[i]) by {
        let part: int = if i % 2 == 0 {
            bytes[i / 2] as int / 16
        } else {
            bytes[i / 2] as int % 16
        };
        assert(0 <= part < 16);
        assert(text[i] == hex_digit(part));
    }
}

impl StoreId {
    #[verifier::type_invariant]
    closed spec fn valid(self) -> bool {
        is_store_id(self.text@)
    }

    /// Draw a Store identity from the same source as Item identities.
    pub fn generate(rng: &mut rand::rngs::StdRng) -> (r: StoreId)
        ensures
            is_store_id(r@),
            is_internal_id(r@),
    {
        let text = generate_internal_id(rng);
        proof {
            law_an_internal_id_is_a_store_id(text@);
        }
        StoreId { text }
    }

    /// The exact directory and Git config spelling of the Store ID.
    #[must_use]
    pub fn text(&self) -> (r: &str)
        ensures
            r@ == self@,
            is_store_id(r@),
    {
        proof {
            use_type_invariant(self);
        }
        self.text.as_str()
    }

    /// Read a Store ID from its spelling.
    pub fn try_from(value: String) -> (r: Result<StoreId, Error>)
        ensures
            match r {
                Ok(id) => is_store_id(value@) && id@ == value@,
                Err(error) => !is_store_id(value@) && error == Error::InvalidPointer,
            },
    {
        let all = chars_of(value.as_str());
        if all.len() != 32 {
            return Err(Error::InvalidPointer);
        }
        let mut i: usize = 0;
        while i < all.len()
            invariant
                0 <= i <= all@.len(),
                all@ == value@,
                forall|k: int| 0 <= k < i ==> is_hex(#[trigger] all@[k]),
            decreases all@.len() - i,
        {
            let c = all[i];
            if !(('0' <= c && c <= '9') || ('a' <= c && c <= 'f')) {
                proof {
                    assert(!is_hex(value@[i as int]));
                }
                return Err(Error::InvalidPointer);
            }
            i = i + 1;
        }
        Ok(StoreId { text: value })
    }

    /// Another handle on the same identity.
    pub fn copy(&self) -> (r: StoreId)
        ensures
            r@ == self@,
    {
        proof {
            use_type_invariant(self);
        }
        StoreId { text: self.text.clone() }
    }

    /// The spelling itself.
    pub fn into_text(self) -> (r: String)
        ensures
            r@ == self@,
            is_store_id(r@),
    {
        proof {
            use_type_invariant(&self);
        }
        self.text
    }
}

/// The one repository allowed to open a Store.
#[derive(Debug)]
pub struct Association {
    pub git_common_dir: String,
}

/// Historical hints; they never authorize ordinary Store access.
#[derive(Debug)]
pub struct Evidence {
    pub previous_git_common_dirs: Vec<String>,
    pub git_remote_urls: Vec<String>,
}

/// The manifest owns Store identity and association; the database owns domain
/// data.
#[derive(Debug)]
pub struct Manifest {
    pub version: u32,
    pub store_id: StoreId,
    pub association: Association,
    pub evidence: Evidence,
}

/// What a manifest says.
#[verifier::ext_equal]
pub struct ManifestView {
    pub version: u32,
    pub store_id: Seq<char>,
    pub git_common_dir: Seq<char>,
    pub previous_git_common_dirs: Seq<Seq<char>>,
    pub git_remote_urls: Seq<Seq<char>>,
}

impl View for Manifest {
    type V = ManifestView;

    open spec fn view(&self) -> ManifestView {
        ManifestView {
            version: self.version,
            store_id: self.store_id@,
            git_common_dir: self.association.git_common_dir@,
            previous_git_common_dirs: spread(self.evidence.previous_git_common_dirs@),
            git_remote_urls: spread(self.evidence.git_remote_urls@),
        }
    }
}

/// Association failures refuse access before the database is opened.
#[derive(Debug)]
pub enum Error {
    DataRoot,
    InvalidPointer,
    DuplicatePointer,
    Legacy,
    Migration(String),
    Recovery,
    Healthy,
    Ownership,
    Manifest,
    AssociationMismatch,
    Collision,
    Busy,
    /// What Git reported.
    Git(String),
    /// What the file system reported.
    Io(String),
}

/// An association failure, with its text as characters.
pub enum Refusal {
    DataRoot,
    InvalidPointer,
    DuplicatePointer,
    Legacy,
    Migration(Seq<char>),
    Recovery,
    Healthy,
    Ownership,
    Manifest,
    AssociationMismatch,
    Collision,
    Busy,
    Git(Seq<char>),
    Io(Seq<char>),
}

impl View for Error {
    type V = Refusal;

    open spec fn view(&self) -> Refusal {
        match *self {
            Error::DataRoot => Refusal::DataRoot,
            Error::InvalidPointer => Refusal::InvalidPointer,
            Error::DuplicatePointer => Refusal::DuplicatePointer,
            Error::Legacy => Refusal::Legacy,
            Error::Migration(text) => Refusal::Migration(text@),
            Error::Recovery => Refusal::Recovery,
            Error::Healthy => Refusal::Healthy,
            Error::Ownership => Refusal::Ownership,
            Error::Manifest => Refusal::Manifest,
            Error::AssociationMismatch => Refusal::AssociationMismatch,
            Error::Collision => Refusal::Collision,
            Error::Busy => Refusal::Busy,
            Error::Git(text) => Refusal::Git(text@),
            Error::Io(text) => Refusal::Io(text@),
        }
    }
}

impl Refusal {
    /// What the user reads.
    pub open spec fn message(self) -> Seq<char> {
        match self {
            Refusal::DataRoot =>
                "platform-local data directory is unavailable or is not absolute"@,
            Refusal::InvalidPointer =>
                "repository-local tk.storeId must be exactly 32 lowercase hexadecimal characters"@,
            Refusal::DuplicatePointer =>
                "multiple repository-local tk.storeId values; restore a single valid Store pointer"@,
            Refusal::Legacy =>
                "legacy Repository Store data exists; stop all tk processes, then run 'tk init'; data was preserved"@,
            Refusal::Migration(text) =>
                "legacy Repository Store migration: "@ + text
                    + "; keep old tk processes stopped and retry 'tk init'; data was preserved"@,
            Refusal::Recovery =>
                "Store evidence requires recovery; run 'tk init'; data was preserved"@,
            Refusal::Healthy =>
                "current repository has a healthy Store Association; attach/new refused"@,
            Refusal::Ownership => "Store ownership is live or unknown; data was preserved"@,
            Refusal::Manifest =>
                "Repository Store manifest is invalid or belongs to a newer tk version; restore metadata manually; data was preserved"@,
            Refusal::AssociationMismatch =>
                "Repository Store belongs to another Git Common Directory; data was preserved"@,
            Refusal::Collision => "Store ID collision; the existing directory was preserved"@,
            Refusal::Busy =>
                "another Store lifecycle operation is running; retry when it finishes"@,
            Refusal::Git(text) => text,
            Refusal::Io(text) => "Repository Store filesystem error: "@ + text,
        }
    }
}

impl Error {
    /// What the user reads.
    pub fn message(&self) -> (r: String)
        ensures
            r@ == self@.message(),
    {
        match self {
            Error::DataRoot =>
                "platform-local data directory is unavailable or is not absolute".to_owned(),
            Error::InvalidPointer =>
                "repository-local tk.storeId must be exactly 32 lowercase hexadecimal characters".to_owned(),
            Error::DuplicatePointer =>
                "multiple repository-local tk.storeId values; restore a single valid Store pointer".to_owned(),
            Error::Legacy =>
                "legacy Repository Store data exists; stop all tk processes, then run 'tk init'; data was preserved".to_owned(),
            Error::Migration(text) => join3(
                "legacy Repository Store migration: ",
                text.as_str(),
                "; keep old tk processes stopped and retry 'tk init'; data was preserved",
            ),
            Error::Recovery =>
                "Store evidence requires recovery; run 'tk init'; data was preserved".to_owned(),
            Error::Healthy =>
                "current repository has a healthy Store Association; attach/new refused".to_owned(),
            Error::Ownership => "Store ownership is live or unknown; data was preserved".to_owned(),
            Error::Manifest =>
                "Repository Store manifest is invalid or belongs to a newer tk version; restore metadata manually; data was preserved".to_owned(),
            Error::AssociationMismatch =>
                "Repository Store belongs to another Git Common Directory; data was preserved".to_owned(),
            Error::Collision => "Store ID collision; the existing directory was preserved".to_owned(),
            Error::Busy =>
                "another Store lifecycle operation is running; retry when it finishes".to_owned(),
            Error::Git(text) => text.as_str().to_owned(),
            Error::Io(text) => crate::text::join2("Repository Store filesystem error: ", text.as_str()),
        }
    }
}

/// What stands at a path, links not followed. `Absent` and `Unreadable` carry
/// what the file system reported.
#[derive(Debug)]
pub enum Probe {
    File,
    Directory,
    Other,
    Absent(String),
    Unreadable(String),
}

/// What stands at a path, the report as characters.
pub enum ProbeView {
    File,
    Directory,
    Other,
    Absent(Seq<char>),
    Unreadable(Seq<char>),
}

impl View for Probe {
    type V = ProbeView;

    open spec fn view(&self) -> ProbeView {
        match *self {
            Probe::File => ProbeView::File,
            Probe::Directory => ProbeView::Directory,
            Probe::Other => ProbeView::Other,
            Probe::Absent(text) => ProbeView::Absent(text@),
            Probe::Unreadable(text) => ProbeView::Unreadable(text@),
        }
    }
}

impl ProbeView {
    /// Whether something stands there, as far as that is known.
    pub open spec fn present(self) -> Result<bool, Refusal> {
        match self {
            ProbeView::Absent(_) => Ok(false),
            ProbeView::Unreadable(text) => Err(Refusal::Io(text)),
            _ => Ok(true),
        }
    }
}

impl Probe {
    /// Whether something stands there.
    pub fn is_there(&self) -> (r: Result<bool, Error>)
        ensures
            match r {
                Ok(found) => self@.present() == Ok::<bool, Refusal>(found),
                Err(error) => self@.present() == Err::<bool, Refusal>(error@),
            },
    {
        match self {
            Probe::Absent(_) => Ok(false),
            Probe::Unreadable(text) => Err(Error::Io(text.as_str().to_owned())),
            _ => Ok(true),
        }
    }
}

/// How an attempt to lock a file ended.
#[derive(Debug)]
pub enum Lock {
    Held,
    WouldBlock,
    Failed(String),
}

/// A lock that another process holds reports a running operation.
pub fn locked(attempt: Lock) -> (r: Result<(), Error>)
    ensures
        match attempt {
            Lock::Held => r is Ok,
            Lock::WouldBlock => r == Err::<(), Error>(Error::Busy),
            Lock::Failed(text) => r == Err::<(), Error>(Error::Io(text)),
        },
{
    match attempt {
        Lock::Held => Ok(()),
        Lock::WouldBlock => Err(Error::Busy),
        Lock::Failed(text) => Err(Error::Io(text)),
    }
}

/// How an attempt to create a directory ended.
#[derive(Debug)]
pub enum Made {
    Created,
    AlreadyExists,
    Failed(String),
}

/// Where Stores live below the platform's data directory.
pub open spec fn stores_below(data_root: Seq<char>) -> Seq<char> {
    below(below(data_root, "tk"@), "stores"@)
}

/// Resolve the platform root without a fallback or an override: the data
/// directory must be known and absolute.
pub fn stores_root(data_root: Option<&str>) -> (r: Result<String, Error>)
    ensures
        match r {
            Ok(root) => data_root is Some && rooted(data_root->0@) && root@ == stores_below(
                data_root->0@,
            ),
            Err(error) => {
                &&& error == Error::DataRoot
                &&& data_root is None || !rooted(data_root->0@)
            },
        },
{
    match data_root {
        Some(root) => {
            if is_rooted(root) {
                let outer = join(root, "tk");
                Ok(join(outer.as_str(), "stores"))
            } else {
                Err(Error::DataRoot)
            }
        },
        None => Err(Error::DataRoot),
    }
}

/// What the pointer values configured in a repository mean: none at all, the
/// one Store that they name, or a refusal.
pub open spec fn pointed(values: Seq<Seq<char>>) -> Result<Option<Seq<char>>, Refusal> {
    if values.len() == 0 {
        Ok(None)
    } else if values.len() > 1 {
        Err(Refusal::DuplicatePointer)
    } else if is_store_id(values[0]) {
        Ok(Some(values[0]))
    } else {
        Err(Refusal::InvalidPointer)
    }
}

/// The one Store that the pointer values name.
pub fn parse_pointer(values: &Vec<String>) -> (r: Result<Option<StoreId>, Error>)
    ensures
        match r {
            Ok(Some(id)) => pointed(spread(values@)) == Ok::<Option<Seq<char>>, Refusal>(Some(id@)),
            Ok(None) => pointed(spread(values@)) == Ok::<Option<Seq<char>>, Refusal>(None),
            Err(error) => pointed(spread(values@)) == Err::<Option<Seq<char>>, Refusal>(error@),
        },
{
    if values.len() == 0 {
        Ok(None)
    } else if values.len() > 1 {
        Err(Error::DuplicatePointer)
    } else {
        match StoreId::try_from(values[0].clone()) {
            Ok(id) => Ok(Some(id)),
            Err(error) => Err(error),
        }
    }
}

/// Read the sole authoritative pointer without selecting a substitute Store:
/// what Git reports when it cannot be read is passed on.
pub fn pointer(read: Result<Vec<String>, String>) -> (r: Result<Option<StoreId>, Error>)
    ensures
        match read {
            Err(text) => r == Err::<Option<StoreId>, Error>(Error::Git(text)),
            Ok(values) => match r {
                Ok(Some(id)) => pointed(spread(values@)) == Ok::<Option<Seq<char>>, Refusal>(Some(id@)),
                Ok(None) => pointed(spread(values@)) == Ok::<Option<Seq<char>>, Refusal>(None),
                Err(error) => pointed(spread(values@)) == Err::<Option<Seq<char>>, Refusal>(error@),
            },
        },
{
    match read {
        Err(text) => Err(Error::Git(text)),
        Ok(values) => parse_pointer(&values),
    }
}

impl ManifestView {
    /// Whether the manifest fits the directory of the given name and the only
    /// version there is, with absolute paths throughout.
    pub open spec fn sound(self, name: Seq<char>) -> bool {
        &&& self.store_id == name
        &&& self.version == 1
        &&& rooted(self.git_common_dir)
        &&& forall|i: int|
            0 <= i < self.previous_git_common_dirs.len() ==> rooted(
                #[trigger] self.previous_git_common_dirs[i],
            )
    }
}

impl Manifest {
    /// Whether the manifest fits the directory of the given name.
    pub fn is_sound(&self, name: &str) -> (r: bool)
        ensures
            r == self@.sound(name@),
    {
        if !same_text(self.store_id.text(), name) || self.version != 1 || !is_rooted(
            self.association.git_common_dir.as_str(),
        ) {
            return false;
        }
        let previous = &self.evidence.previous_git_common_dirs;
        let mut i: usize = 0;
        while i < previous.len()
            invariant
                0 <= i <= previous@.len(),
                previous == self.evidence.previous_git_common_dirs,
                forall|k: int| 0 <= k < i ==> rooted(#[trigger] previous@[k]@),
            decreases previous@.len() - i,
        {
            if !is_rooted(previous[i].as_str()) {
                proof {
                    assert(!rooted(self@.previous_git_common_dirs[i as int]));
                }
                return false;
            }
            i = i + 1;
        }
        true
    }
}

/// What a Store directory's manifest amounts to: the directory must be one,
/// and what was read from it must be sound.
pub open spec fn manifest_in(
    name: Seq<char>,
    directory: ProbeView,
    read: Result<ManifestView, Refusal>,
) -> Result<ManifestView, Refusal> {
    match directory {
        ProbeView::Absent(text) => Err(Refusal::Io(text)),
        ProbeView::Unreadable(text) => Err(Refusal::Io(text)),
        ProbeView::Directory => match read {
            Err(refusal) => Err(refusal),
            Ok(manifest) => if manifest.sound(name) {
                Ok(manifest)
            } else {
                Err(Refusal::Manifest)
            },
        },
        _ => Err(Refusal::Manifest),
    }
}

/// The outcome of reading a manifest, as values.
pub open spec fn manifest_read(read: Result<Manifest, Error>) -> Result<ManifestView, Refusal> {
    match read {
        Ok(manifest) => Ok(manifest@),
        Err(error) => Err(error@),
    }
}

/// Check a manifest's structure before it is compared with the requested
/// association.
pub fn read_manifest(name: &str, directory: &Probe, read: Result<Manifest, Error>) -> (r: Result<Manifest, Error>)
    ensures
        manifest_read(r) == manifest_in(name@, directory@, manifest_read(read)),
{
    match directory {
        Probe::Absent(text) => Err(Error::Io(text.as_str().to_owned())),
        Probe::Unreadable(text) => Err(Error::Io(text.as_str().to_owned())),
        Probe::Directory => match read {
            Err(error) => Err(error),
            Ok(manifest) => {
                if manifest.is_sound(name) {
                    Ok(manifest)
                } else {
                    Err(Error::Manifest)
                }
            },
        },
        _ => Err(Error::Manifest),
    }
}

/// The database path of a Store whose metadata allows the repository in.
pub open spec fn validated(
    root: Seq<char>,
    id: Seq<char>,
    common: Seq<char>,
    manifest: Result<ManifestView, Refusal>,
) -> Result<Seq<char>, Refusal> {
    match manifest {
        Err(refusal) => Err(refusal),
        Ok(manifest) => if same_place(manifest.git_common_dir, common) {
            Ok(below(below(root, id), "tk.db"@))
        } else {
            Err(Refusal::AssociationMismatch)
        },
    }
}

/// Validate all Store metadata before returning its database path: the
/// manifest as read from the Store's directory must be sound and name the
/// repository's own Git Common Directory.
pub fn validate(
    root: &str,
    id: &StoreId,
    common: &str,
    directory: &Probe,
    read: Result<Manifest, Error>,
) -> (r: Result<String, Error>)
    ensures
        match r {
            Ok(path) => validated(
                root@,
                id@,
                common@,
                manifest_in(id@, directory@, manifest_read(read)),
            ) == Ok::<Seq<char>, Refusal>(path@),
            Err(error) => validated(
                root@,
                id@,
                common@,
                manifest_in(id@, directory@, manifest_read(read)),
            ) == Err::<Seq<char>, Refusal>(error@),
        },
{
    match read_manifest(id.text(), directory, read) {
        Err(error) => Err(error),
        Ok(manifest) => {
            if !same_path(manifest.association.git_common_dir.as_str(), common) {
                return Err(Error::AssociationMismatch);
            }
            let dir = join(root, id.text());
            Ok(join(dir.as_str(), "tk.db"))
        },
    }
}

/// Refuse legacy data even when no Git pointer exists.
pub fn refuse_legacy(legacy: &Probe) -> (r: Result<(), Error>)
    ensures
        match legacy@.present() {
            Ok(true) => r == Err::<(), Error>(Error::Legacy),
            Ok(false) => r is Ok,
            Err(refusal) => r is Err && r->Err_0@ == refusal,
        },
{
    match legacy.is_there() {
        Ok(true) => Err(Error::Legacy),
        Ok(false) => Ok(()),
        Err(error) => Err(error),
    }
}

/// Reserve a fresh Store directory exclusively; a collision never opens what
/// is there.
pub fn reserve(root: &str, id: &StoreId, made: Made) -> (r: Result<String, Error>)
    ensures
        match made {
            Made::Created => r is Ok && r->Ok_0@ == below(root@, id@),
            Made::AlreadyExists => r == Err::<String, Error>(Error::Collision),
            Made::Failed(text) => r == Err::<String, Error>(Error::Io(text)),
        },
{
    match made {
        Made::Created => Ok(join(root, id.text())),
        Made::AlreadyExists => Err(Error::Collision),
        Made::Failed(text) => Err(Error::Io(text)),
    }
}

/// The name under which a replacement manifest is written before it takes the
/// place of the manifest; `id` is drawn for this purpose alone.
pub fn staged_name(id: &StoreId) -> (r: String)
    ensures
        r@ == "store.json."@ + id@ + ".pending"@,
{
    join3("store.json.", id.text(), ".pending")
}

/// A Store opens for no repository but the one its manifest names.
pub proof fn law_only_the_associated_repository_gets_in(
    root: Seq<char>,
    id: Seq<char>,
    common: Seq<char>,
    directory: ProbeView,
    read: Result<ManifestView, Refusal>,
)
    requires
        validated(root, id, common, manifest_in(id, directory, read)) is Ok,
    ensures
        read is Ok,
        directory is Directory,
        read->Ok_0.store_id == id,
        read->Ok_0.version == 1,
        same_place(read->Ok_0.git_common_dir, common),
{
}

/// The spelling of a Store ID reads back as the same Store ID.
pub proof fn law_a_store_id_reads_back(id: Seq<char>)
    requires
        is_store_id(id),
    ensures
        pointed(seq![id]) == Ok::<Option<Seq<char>>, Refusal>(Some(id)),
{
}

} // verus!
