//! Fresh Repository Store creation, step by step.
//!
//! Each [`Task`] is one piece of work on files, Git or the database that the
//! caller performs; what came of it goes to [`Setup::advance`], which says what
//! comes next. The Git pointer is installed last, when everything it leads to
//! is in place.

use vstd::prelude::*;

use crate::association::{
    manifest_in, manifest_read, parse_pointer, pointed, refuse_legacy, reserve, stores_below,
    stores_root, validate, validated, Association, Error, Evidence, Made, Manifest, ManifestView,
    Probe, ProbeView, Refusal, StoreId,
};
use crate::display_prefix::prefix_of;
use crate::paths::{below, file_name, join, last_name, rooted, spread};
use crate::repository::open::{OpenError, OpenFault};
use crate::text::{folded, join3, same_folded};

verus! {

/// What came of an initialization.
#[derive(Debug)]
pub enum Initialized {
    /// A new Store was published and its Git pointer installed; the database
    /// path.
    Created(String),
    /// The current Store Association and database validated; the database path.
    Existing(String),
}

/// A piece of work for the caller.
#[derive(Debug, Clone, Copy, PartialEq, Eq, Structural)]
pub enum Task {
    /// Find the canonical Git Common Directory.
    FindCommon,
    /// Look for legacy data in it.
    ProbeLegacy,
    /// Read the pointer values.
    ReadPointer,
    /// Take the lock that all initializations share.
    LockInit,
    /// Read the pointer values again: another initialization may have installed
    /// one before the lock was taken.
    RereadPointer,
    /// Read the manifest of the Store that the pointer names.
    ReadManifest,
    /// Open and configure its database.
    OpenDatabase,
    /// Read the repository's remote URLs.
    ReadRemotes,
    /// Refuse where another Store may belong to this repository.
    SearchStores,
    /// Draw a Store ID.
    DrawId,
    /// Create the Store's directory.
    Reserve,
    /// Create, configure and migrate the database, and seed the prefix.
    CreateDatabase,
    /// Write the manifest.
    Publish,
    /// Install the Git pointer.
    InstallPointer,
    /// Nothing is left to do.
    Complete,
}

/// What came of a piece of work.
#[derive(Debug)]
pub enum Reply {
    Done,
    Failed(OpenError),
    Common(String),
    Found(Probe),
    Values(Vec<String>),
    ManifestRead(Probe, Result<Manifest, Error>),
    Drawn(StoreId),
    Directory(Made),
}

/// What came of a piece of work, texts as characters.
pub enum ReplyView {
    Done,
    Failed(OpenFault),
    Common(Seq<char>),
    Found(ProbeView),
    Values(Seq<Seq<char>>),
    ManifestRead(ProbeView, Result<ManifestView, Refusal>),
    Drawn(Seq<char>),
    Directory(Result<bool, Seq<char>>),
}

impl View for Reply {
    type V = ReplyView;

    open spec fn view(&self) -> ReplyView {
        match *self {
            Reply::Done => ReplyView::Done,
            Reply::Failed(error) => ReplyView::Failed(error@),
            Reply::Common(path) => ReplyView::Common(path@),
            Reply::Found(probe) => ReplyView::Found(probe@),
            Reply::Values(values) => ReplyView::Values(spread(values@)),
            Reply::ManifestRead(probe, read) => ReplyView::ManifestRead(probe@, manifest_read(read)),
            Reply::Drawn(id) => ReplyView::Drawn(id@),
            Reply::Directory(made) => ReplyView::Directory(
                match made {
                    Made::Created => Ok(true),
                    Made::AlreadyExists => Ok(false),
                    Made::Failed(text) => Err(text@),
                },
            ),
        }
    }
}

/// Whether a reply answers a task. A failure answers every one.
pub open spec fn answers(task: Task, reply: ReplyView) -> bool {
    match reply {
        ReplyView::Failed(_) => task != Task::Complete,
        ReplyView::Common(_) => task == Task::FindCommon,
        ReplyView::Found(_) => task == Task::ProbeLegacy,
        ReplyView::Values(_) => task == Task::ReadPointer || task == Task::RereadPointer || task
            == Task::ReadRemotes,
        ReplyView::ManifestRead(_, _) => task == Task::ReadManifest,
        ReplyView::Drawn(_) => task == Task::DrawId,
        ReplyView::Directory(_) => task == Task::Reserve,
        ReplyView::Done => task == Task::LockInit || task == Task::OpenDatabase || task
            == Task::SearchStores || task == Task::CreateDatabase || task == Task::Publish || task
            == Task::InstallPointer,
    }
}

/// An initialization under way.
#[derive(Debug)]
pub struct Setup {
    pub task: Task,
    /// Where Stores live.
    pub root: String,
    /// The canonical Git Common Directory, once known.
    pub common: String,
    /// The Store, once known.
    pub id: Option<StoreId>,
    /// The repository's remote URLs, once read.
    pub urls: Vec<String>,
    /// Whether the Store is a new one.
    pub fresh: bool,
}

/// An initialization under way, texts as characters.
#[verifier::ext_equal]
pub struct SetupView {
    pub task: Task,
    pub root: Seq<char>,
    pub common: Seq<char>,
    pub id: Option<Seq<char>>,
    pub urls: Seq<Seq<char>>,
    pub fresh: bool,
}

impl View for Setup {
    type V = SetupView;

    open spec fn view(&self) -> SetupView {
        SetupView {
            task: self.task,
            root: self.root@,
            common: self.common@,
            id: match self.id {
                Some(id) => Some(id@),
                None => None,
            },
            urls: spread(self.urls@),
            fresh: self.fresh,
        }
    }
}

impl SetupView {
    /// Whether the Store is known wherever the work at hand needs it.
    pub open spec fn wf(self) -> bool {
        match self.task {
            Task::ReadManifest | Task::OpenDatabase => self.id is Some && !self.fresh,
            Task::Reserve | Task::CreateDatabase | Task::Publish | Task::InstallPointer => self.id
                is Some && self.fresh,
            Task::Complete => self.id is Some,
            _ => true,
        }
    }

    /// On with another task.
    pub open spec fn to(self, task: Task) -> SetupView {
        SetupView { task, ..self }
    }

    /// On with the Store that the pointer names, or with `otherwise`.
    pub open spec fn by_pointer(self, values: Seq<Seq<char>>, otherwise: Task) -> Result<
        SetupView,
        OpenFault,
    > {
        match pointed(values) {
            Err(refusal) => Err(OpenFault::Association(refusal)),
            Ok(Some(id)) => Ok(
                SetupView { task: Task::ReadManifest, id: Some(id), fresh: false, ..self },
            ),
            Ok(None) => Ok(self.to(otherwise)),
        }
    }

    /// What comes after a reply.
    pub open spec fn after(self, reply: ReplyView) -> Result<SetupView, OpenFault> {
        match reply {
            ReplyView::Failed(fault) => Err(fault),
            ReplyView::Common(path) => Ok(
                SetupView { task: Task::ProbeLegacy, common: path, ..self },
            ),
            ReplyView::Found(probe) => match probe.present() {
                Err(refusal) => Err(OpenFault::Association(refusal)),
                Ok(true) => Err(OpenFault::Association(Refusal::Legacy)),
                Ok(false) => Ok(self.to(Task::ReadPointer)),
            },
            ReplyView::Values(values) => match self.task {
                Task::ReadPointer => self.by_pointer(values, Task::LockInit),
                Task::RereadPointer => self.by_pointer(values, Task::ReadRemotes),
                _ => Ok(SetupView { task: Task::SearchStores, urls: values, ..self }),
            },
            ReplyView::ManifestRead(directory, read) => match validated(
                self.root,
                self.id->0,
                self.common,
                manifest_in(self.id->0, directory, read),
            ) {
                Err(refusal) => Err(OpenFault::Association(refusal)),
                Ok(_) => Ok(self.to(Task::OpenDatabase)),
            },
            ReplyView::Drawn(id) => Ok(
                SetupView { task: Task::Reserve, id: Some(id), fresh: true, ..self },
            ),
            ReplyView::Directory(made) => match made {
                Err(text) => Err(OpenFault::Association(Refusal::Io(text))),
                Ok(false) => Err(OpenFault::Association(Refusal::Collision)),
                Ok(true) => Ok(self.to(Task::CreateDatabase)),
            },
            ReplyView::Done => match self.task {
                Task::LockInit => Ok(self.to(Task::RereadPointer)),
                Task::SearchStores => Ok(self.to(Task::DrawId)),
                Task::CreateDatabase => Ok(self.to(Task::Publish)),
                Task::Publish => Ok(self.to(Task::InstallPointer)),
                _ => Ok(self.to(Task::Complete)),
            },
        }
    }

    /// The Store's database.
    pub open spec fn database(self) -> Seq<char> {
        below(below(self.root, self.id->0), "tk.db"@)
    }

    /// The manifest of the new Store.
    pub open spec fn manifest(self) -> ManifestView {
        ManifestView {
            version: 1,
            store_id: self.id->0,
            git_common_dir: self.common,
            previous_git_common_dirs: Seq::empty(),
            git_remote_urls: self.urls,
        }
    }
}

impl Setup {
    fn follow(self, values: &Vec<String>, otherwise: Task) -> (r: Result<Setup, OpenError>)
        ensures
            match r {
                Ok(next) => self@.by_pointer(spread(values@), otherwise) == Ok::<SetupView, OpenFault>(
                    next@,
                ),
                Err(error) => self@.by_pointer(spread(values@), otherwise) == Err::<
                    SetupView,
                    OpenFault,
                >(error@),
            },
    {
        let mut next = self;
        match parse_pointer(values) {
            Err(error) => {
                return Err(OpenError::Association(error));
            },
            Ok(Some(id)) => {
                next.task = Task::ReadManifest;
                next.id = Some(id);
                next.fresh = false;
            },
            Ok(None) => {
                next.task = otherwise;
            },
        }
        Ok(next)
    }

    /// What comes next, given what came of the work at hand.
    pub fn advance(self, reply: Reply) -> (r: Result<Setup, OpenError>)
        requires
            self@.wf(),
            answers(self.task, reply@),
        ensures
            match r {
                Ok(next) => self@.after(reply@) == Ok::<SetupView, OpenFault>(next@) && next@.wf(),
                Err(error) => self@.after(reply@) == Err::<SetupView, OpenFault>(error@),
            },
    {
        let ghost before = self@;
        let mut next = self;
        match reply {
            Reply::Failed(error) => {
                return Err(error);
            },
            Reply::Common(path) => {
                next.common = path;
                next.task = Task::ProbeLegacy;
            },
            Reply::Found(probe) => match refuse_legacy(&probe) {
                Err(error) => {
                    return Err(OpenError::Association(error));
                },
                Ok(()) => {
                    next.task = Task::ReadPointer;
                },
            },
            Reply::Values(values) => {
                if next.task == Task::ReadPointer {
                    return next.follow(&values, Task::LockInit);
                }
                if next.task == Task::RereadPointer {
                    return next.follow(&values, Task::ReadRemotes);
                }
                next.urls = values;
                next.task = Task::SearchStores;
            },
            Reply::ManifestRead(directory, read) => {
                let checked = match &next.id {
                    Some(id) => validate(next.root.as_str(), id, next.common.as_str(), &directory, read),
                    None => Err(Error::Manifest),
                };
                match checked {
                    Err(error) => {
                        return Err(OpenError::Association(error));
                    },
                    Ok(_) => {
                        next.task = Task::OpenDatabase;
                    },
                }
            },
            Reply::Drawn(id) => {
                next.id = Some(id);
                next.fresh = true;
                next.task = Task::Reserve;
            },
            Reply::Directory(made) => {
                let reserved = match &next.id {
                    Some(id) => reserve(next.root.as_str(), id, made),
                    None => Err(Error::Collision),
                };
                match reserved {
                    Err(error) => {
                        return Err(OpenError::Association(error));
                    },
                    Ok(_) => {
                        next.task = Task::CreateDatabase;
                    },
                }
            },
            Reply::Done => {
                next.task = match next.task {
                    Task::LockInit => Task::RereadPointer,
                    Task::SearchStores => Task::DrawId,
                    Task::CreateDatabase => Task::Publish,
                    Task::Publish => Task::InstallPointer,
                    _ => Task::Complete,
                };
            },
        }
        Ok(next)
    }

    /// The Store's database.
    pub fn database(&self) -> (r: String)
        requires
            self@.id is Some,
        ensures
            r@ == self@.database(),
    {
        match &self.id {
            Some(id) => {
                let dir = join(self.root.as_str(), id.text());
                join(dir.as_str(), "tk.db")
            },
            None => String::new(),
        }
    }

    /// The manifest of the new Store.
    pub fn manifest(&self) -> (r: Option<Manifest>)
        ensures
            match r {
                Some(manifest) => self@.id is Some && manifest@ == self@.manifest(),
                None => self@.id is None,
            },
    {
        match &self.id {
            None => None,
            Some(id) => {
                let mut urls: Vec<String> = Vec::new();
                let mut i: usize = 0;
                while i < self.urls.len()
                    invariant
                        0 <= i <= self.urls@.len(),
                        spread(urls@) == spread(self.urls@).take(i as int),
                    decreases self.urls@.len() - i,
                {
                    let ghost before = spread(urls@);
                    urls.push(self.urls[i].clone());
                    i = i + 1;
                    proof {
                        assert(spread(urls@) =~= before.push(self.urls@[i - 1]@));
                        assert(spread(urls@) =~= spread(self.urls@).take(i as int));
                    }
                }
                let manifest = Manifest {
                    version: 1,
                    store_id: id.copy(),
                    association: Association { git_common_dir: self.common.clone() },
                    evidence: Evidence { previous_git_common_dirs: Vec::new(), git_remote_urls: urls },
                };
                proof {
                    assert(manifest@ =~= self@.manifest());
                }
                Some(manifest)
            },
        }
    }

    /// What came of it all.
    pub fn initialized(&self) -> (r: Initialized)
        requires
            self.task == Task::Complete,
            self@.wf(),
        ensures
            match r {
                Initialized::Created(path) => self.fresh && path@ == self@.database(),
                Initialized::Existing(path) => !self.fresh && path@ == self@.database(),
            },
    {
        if self.fresh {
            Initialized::Created(self.database())
        } else {
            Initialized::Existing(self.database())
        }
    }
}

/// Begin an initialization below the platform's data directory: validate a
/// healthy Store, or publish a fresh one before its pointer is installed.
pub fn initialize(data_root: Option<&str>) -> (r: Result<Setup, OpenError>)
    ensures
        match r {
            Ok(setup) => {
                &&& data_root is Some
                &&& rooted(data_root->0@)
                &&& setup@ == (SetupView {
                    task: Task::FindCommon,
                    root: stores_below(data_root->0@),
                    common: Seq::empty(),
                    id: None,
                    urls: Seq::empty(),
                    fresh: false,
                })
            },
            Err(error) => {
                &&& error@ == OpenFault::Association(Refusal::DataRoot)
                &&& data_root is None || !rooted(data_root->0@)
            },
        },
{
    match stores_root(data_root) {
        Err(error) => Err(OpenError::Association(error)),
        Ok(root) => {
            let setup = Setup {
                task: Task::FindCommon,
                root,
                common: String::new(),
                id: None,
                urls: Vec::new(),
                fresh: false,
            };
            proof {
                assert(setup@.urls =~= Seq::<Seq<char>>::empty());
                assert(setup@.common =~= Seq::<char>::empty());
            }
            Ok(setup)
        },
    }
}

/// Require write-ahead logging for an on-disk store: the journal mode read back
/// must be it, whatever its case.
pub fn require_write_ahead(mode: &str) -> (r: Result<(), OpenError>)
    ensures
        match r {
            Ok(()) => folded(mode@) == folded("wal"@),
            Err(error) => folded(mode@) != folded("wal"@) && error@ == OpenFault::Sqlite(
                "journal_mode could not be set to wal (current: "@ + mode@ + ")"@,
            ),
        },
{
    if same_folded(mode, "wal") {
        Ok(())
    } else {
        Err(
            OpenError::Sqlite(
                join3("journal_mode could not be set to wal (current: ", mode, ")"),
            ),
        )
    }
}

/// The Display ID prefix of a fresh Store, derived from the last name of the
/// repository's top directory.
pub fn seed_display_prefix(toplevel: &str) -> (r: String)
    ensures
        match last_name(toplevel@) {
            Some(name) => r@ == prefix_of(name),
            None => r@ == prefix_of(""@),
        },
{
    match file_name(toplevel) {
        Some(name) => crate::display_prefix::derive(name.as_str()),
        None => crate::display_prefix::derive(""),
    }
}

/// The pointer is the last thing to be installed: the step before it published
/// the manifest, and a new Store is only reported once it is in.
pub proof fn law_the_pointer_comes_last(v: SetupView, reply: ReplyView)
    requires
        v.wf(),
        answers(v.task, reply),
        v.after(reply) is Ok,
    ensures
        v.after(reply)->Ok_0.task == Task::InstallPointer ==> v.task == Task::Publish && reply is Done,
        v.after(reply)->Ok_0.task == Task::Publish ==> v.task == Task::CreateDatabase && reply is Done,
        v.after(reply)->Ok_0.task == Task::Complete && v.after(reply)->Ok_0.fresh ==> v.task
            == Task::InstallPointer && reply is Done,
{
}

/// A repository that points at a Store keeps it: nothing is created, and what
/// the pointer names is validated before its database is opened.
pub proof fn law_an_existing_association_is_kept(v: SetupView, values: Seq<Seq<char>>)
    requires
        v.task == Task::ReadPointer || v.task == Task::RereadPointer,
        values.len() > 0,
    ensures
        match v.after(ReplyView::Values(values)) {
            Ok(next) => next.task == Task::ReadManifest && next.id == Some(values[0]) && !next.fresh,
            Err(_) => pointed(values) is Err,
        },
{
}

} // verus!
