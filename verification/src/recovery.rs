//! Manifest discovery and Store Association recovery.
//!
//! What directories, manifests and databases report comes in as plain values.

use vstd::prelude::*;
use vstd::relations::sorted_by;

use crate::association::{is_store_id, manifest_read, Error, Manifest, ManifestView, Refusal, StoreId};
use crate::paths::{file_name, last_name, lists, same_path, same_place, spread};
use crate::repository::open::{admitted, answer, let_in, OpenError, OpenFault};
use crate::select::{lemma_filter_all, lemma_filter_none, lemma_filter_step};
use crate::text::{
    chars_of, join3, lemma_text_le_total, lemma_text_le_trans, not_after, same_text, text_le,
};

verus! {

/// What a table of a database holds: whether a row goes beyond what a fresh
/// store has.
#[derive(Debug)]
pub struct TableFact {
    pub name: String,
    pub occupied: Result<bool, String>,
}

/// What a database answers, each question by itself.
#[derive(Debug)]
pub struct DatabaseImage {
    pub application_id: Result<i64, String>,
    /// The highest recorded schema version.
    pub version: Result<i64, String>,
    /// The first line of the integrity check.
    pub quick_check: Result<String, String>,
    /// Whether the foreign-key check names a row.
    pub dangling: Result<bool, String>,
    /// The version in the header.
    pub user_version: Result<i64, String>,
    /// How many versions from the first to the highest are recorded.
    pub recorded: Result<i64, String>,
    pub tables: Result<Vec<TableFact>, String>,
}

/// What a table holds.
pub struct TableFactView {
    pub name: Seq<char>,
    pub occupied: Result<bool, Seq<char>>,
}

impl View for TableFact {
    type V = TableFactView;

    open spec fn view(&self) -> TableFactView {
        TableFactView { name: self.name@, occupied: answer(self.occupied) }
    }
}

/// The facts of the tables.
pub open spec fn table_facts(tables: Seq<TableFact>) -> Seq<TableFactView> {
    tables.map_values(|t: TableFact| t@)
}

/// What a database answers.
pub struct DatabaseImageView {
    pub application_id: Result<i64, Seq<char>>,
    pub version: Result<i64, Seq<char>>,
    pub quick_check: Result<Seq<char>, Seq<char>>,
    pub dangling: Result<bool, Seq<char>>,
    pub user_version: Result<i64, Seq<char>>,
    pub recorded: Result<i64, Seq<char>>,
    pub tables: Result<Seq<TableFactView>, Seq<char>>,
}

impl View for DatabaseImage {
    type V = DatabaseImageView;

    open spec fn view(&self) -> DatabaseImageView {
        DatabaseImageView {
            application_id: answer(self.application_id),
            version: answer(self.version),
            quick_check: match self.quick_check {
                Ok(text) => Ok(text@),
                Err(text) => Err(text@),
            },
            dangling: answer(self.dangling),
            user_version: answer(self.user_version),
            recorded: answer(self.recorded),
            tables: match self.tables {
                Ok(tables) => Ok(table_facts(tables@)),
                Err(text) => Err(text@),
            },
        }
    }
}

/// Whether a database is a sound Repository Store, migrations not run: its
/// application ID and version are known, it has a schema, and its checks find
/// nothing.
pub open spec fn inspected(image: DatabaseImageView) -> Result<(), OpenFault> {
    match admitted(image.application_id, image.version) {
        Err(fault) => Err(fault),
        Ok(()) => if image.version->Ok_0 == 0 {
            Err(OpenFault::NotTicketStore)
        } else if image.quick_check is Err {
            Err(OpenFault::Sqlite(image.quick_check->Err_0))
        } else if image.quick_check->Ok_0 != "ok"@ {
            Err(OpenFault::NotTicketStore)
        } else if image.dangling is Err {
            Err(OpenFault::Sqlite(image.dangling->Err_0))
        } else if image.dangling->Ok_0 {
            Err(OpenFault::NotTicketStore)
        } else {
            Ok(())
        },
    }
}

/// Shortlisted databases are inspected without running migrations.
pub fn inspect_database(image: &DatabaseImage) -> (r: Result<(), OpenError>)
    ensures
        match r {
            Ok(()) => inspected(image@) is Ok,
            Err(error) => inspected(image@) == Err::<(), OpenFault>(error@),
        },
{
    match let_in(&image.application_id, &image.version) {
        Err(error) => {
            return Err(error);
        },
        Ok(()) => {},
    }
    match &image.version {
        Ok(version) => {
            if *version == 0 {
                return Err(OpenError::NotTicketStore);
            }
        },
        Err(_) => {},
    }
    match &image.quick_check {
        Err(text) => {
            return Err(OpenError::Sqlite(text.as_str().to_owned()));
        },
        Ok(text) => {
            if !same_text(text.as_str(), "ok") {
                return Err(OpenError::NotTicketStore);
            }
        },
    }
    match &image.dangling {
        Err(text) => Err(OpenError::Sqlite(text.as_str().to_owned())),
        Ok(found) => {
            if *found {
                Err(OpenError::NotTicketStore)
            } else {
                Ok(())
            }
        },
    }
}

/// Whether one of the tables has this name.
pub open spec fn has_table(tables: Seq<TableFactView>, name: Seq<char>) -> bool {
    exists|i: int| 0 <= i < tables.len() && (#[trigger] tables[i]).name == name
}

/// Whether every table that a store at `version` has is there.
pub open spec fn complete(version: int, tables: Seq<TableFactView>) -> bool {
    &&& version >= 1 ==> {
        &&& has_table(tables, "schema_migrations"@)
        &&& has_table(tables, "sequences"@)
        &&& has_table(tables, "store_config"@)
        &&& has_table(tables, "items"@)
        &&& has_table(tables, "item_ids"@)
        &&& has_table(tables, "dependencies"@)
        &&& has_table(tables, "external_blockers"@)
        &&& has_table(tables, "mutations"@)
        &&& has_table(tables, "remotes"@)
        &&& has_table(tables, "sync_cursors"@)
    }
    &&& version >= 13 ==> has_table(tables, "former_backend_identities"@)
    &&& version >= 17 ==> has_table(tables, "plan_members"@)
}

/// The condition under which a row of a table goes beyond a fresh store, in
/// SQL.
pub open spec fn beyond_fresh(table: Seq<char>) -> Seq<char> {
    if table == "schema_migrations"@ {
        "version < 1"@
    } else if table == "sequences"@ {
        "value != 0 or name not in ('item_created_seq', 'display_seq', 'mutation_seq')"@
    } else if table == "store_config"@ {
        "key != 'display_prefix'"@
    } else {
        "1"@
    }
}

/// The condition under which a row of a table goes beyond a fresh store.
pub fn predicate(table: &str) -> (r: &'static str)
    ensures
        r@ == beyond_fresh(table@),
{
    if same_text(table, "schema_migrations") {
        "version < 1"
    } else if same_text(table, "sequences") {
        "value != 0 or name not in ('item_created_seq', 'display_seq', 'mutation_seq')"
    } else if same_text(table, "store_config") {
        "key != 'display_prefix'"
    } else {
        "1"
    }
}

/// A name with its double quotes doubled.
pub open spec fn doubled(name: Seq<char>) -> Seq<char>
    decreases name.len(),
{
    if name.len() == 0 {
        name
    } else if name.last() == '"' {
        doubled(name.drop_last()).push('"').push('"')
    } else {
        doubled(name.drop_last()).push(name.last())
    }
}

/// The query that finds a row of a table that goes beyond a fresh store.
pub fn probe_query(table: &str) -> (r: String)
    ensures
        r@ == "select 1 from \""@ + doubled(table@) + "\" where "@ + beyond_fresh(table@) + " limit 1"@,
{
    let all = chars_of(table);
    let mut quoted = String::new();
    let mut i: usize = 0;
    proof {
        assert(all@.take(0) =~= Seq::<char>::empty());
    }
    while i < all.len()
        invariant
            0 <= i <= all@.len(),
            quoted@ == doubled(all@.take(i as int)),
        decreases all@.len() - i,
    {
        proof {
            assert(all@.take(i + 1).drop_last() =~= all@.take(i as int));
            assert(all@.take(i + 1).last() == all@[i as int]);
        }
        if all[i] == '"' {
            quoted.push('"');
        }
        quoted.push(all[i]);
        i = i + 1;
    }
    proof {
        assert(all@.take(all@.len() as int) =~= table@);
    }
    let head = join3("select 1 from \"", quoted.as_str(), "\" where ");
    join3(head.as_str(), predicate(table), " limit 1")
}

fn find_table(tables: &Vec<TableFact>, name: &str) -> (r: bool)
    ensures
        r == has_table(table_facts(tables@), name@),
{
    let ghost facts = table_facts(tables@);
    let mut i: usize = 0;
    while i < tables.len()
        invariant
            0 <= i <= tables@.len(),
            facts == table_facts(tables@),
            forall|k: int| 0 <= k < i ==> (#[trigger] facts[k]).name != name@,
        decreases tables@.len() - i,
    {
        if same_text(tables[i].name.as_str(), name) {
            proof {
                assert(facts[i as int].name == name@);
            }
            return true;
        }
        i = i + 1;
    }
    false
}

fn is_complete(version: i64, tables: &Vec<TableFact>) -> (r: bool)
    ensures
        r == complete(version as int, table_facts(tables@)),
{
    if version >= 1 && !(find_table(tables, "schema_migrations") && find_table(tables, "sequences")
        && find_table(tables, "store_config") && find_table(tables, "items") && find_table(
        tables,
        "item_ids",
    ) && find_table(tables, "dependencies") && find_table(tables, "external_blockers")
        && find_table(tables, "mutations") && find_table(tables, "remotes") && find_table(
        tables,
        "sync_cursors",
    )) {
        return false;
    }
    if version >= 13 && !find_table(tables, "former_backend_identities") {
        return false;
    }
    !(version >= 17 && !find_table(tables, "plan_members"))
}

/// Whether none of the tables from `at` on holds more than a fresh store does:
/// the first that does, or that cannot be read, decides.
pub open spec fn untouched(tables: Seq<TableFactView>, at: int) -> Result<bool, OpenFault>
    decreases tables.len() - at,
{
    if at >= tables.len() || at < 0 {
        Ok(true)
    } else {
        match tables[at].occupied {
            Err(text) => Err(OpenFault::Sqlite(text)),
            Ok(true) => Ok(false),
            Ok(false) => untouched(tables, at + 1),
        }
    }
}

/// Whether a database holds no more than a fresh store does.
pub open spec fn vacant_image(image: DatabaseImageView) -> Result<bool, OpenFault> {
    match inspected(image) {
        Err(fault) => Err(fault),
        Ok(()) => if image.user_version is Err {
            Err(OpenFault::Sqlite(image.user_version->Err_0))
        } else if image.recorded is Err {
            Err(OpenFault::Sqlite(image.recorded->Err_0))
        } else if image.user_version->Ok_0 != image.version->Ok_0 || image.recorded->Ok_0
            != image.version->Ok_0 {
            Err(OpenFault::NotTicketStore)
        } else if image.tables is Err {
            Err(OpenFault::Sqlite(image.tables->Err_0))
        } else if !complete(image.version->Ok_0 as int, image.tables->Ok_0) {
            Err(OpenFault::NotTicketStore)
        } else {
            untouched(image.tables->Ok_0, 0)
        },
    }
}

/// A vacancy, as values.
pub open spec fn vacancy(r: Result<bool, OpenError>) -> Result<bool, OpenFault> {
    match r {
        Ok(vacant) => Ok(vacant),
        Err(error) => Err(error@),
    }
}

/// Whether a database holds no more than a fresh store does: its recorded
/// versions agree, every table of its version is there, and no table has a row
/// that goes beyond.
pub fn vacant_database(image: &DatabaseImage) -> (r: Result<bool, OpenError>)
    ensures
        vacancy(r) == vacant_image(image@),
{
    match inspect_database(image) {
        Err(error) => {
            return Err(error);
        },
        Ok(()) => {},
    }
    let version: i64 = match &image.version {
        Ok(version) => *version,
        Err(text) => {
            return Err(OpenError::Sqlite(text.as_str().to_owned()));
        },
    };
    let mirrored: i64 = match &image.user_version {
        Ok(version) => *version,
        Err(text) => {
            return Err(OpenError::Sqlite(text.as_str().to_owned()));
        },
    };
    let recorded: i64 = match &image.recorded {
        Ok(count) => *count,
        Err(text) => {
            return Err(OpenError::Sqlite(text.as_str().to_owned()));
        },
    };
    if mirrored != version || recorded != version {
        return Err(OpenError::NotTicketStore);
    }
    let tables = match &image.tables {
        Ok(tables) => tables,
        Err(text) => {
            return Err(OpenError::Sqlite(text.as_str().to_owned()));
        },
    };
    if !is_complete(version, tables) {
        return Err(OpenError::NotTicketStore);
    }
    let ghost facts = table_facts(tables@);
    let mut i: usize = 0;
    while i < tables.len()
        invariant
            0 <= i <= tables@.len(),
            facts == table_facts(tables@),
            vacant_image(image@) == untouched(facts, i as int),
        decreases tables@.len() - i,
    {
        proof {
            assert(facts[i as int] == tables@[i as int]@);
        }
        match &tables[i].occupied {
            Err(text) => {
                return Err(OpenError::Sqlite(text.as_str().to_owned()));
            },
            Ok(occupied) => {
                if *occupied {
                    return Ok(false);
                }
            },
        }
        i = i + 1;
    }
    Ok(true)
}

/// What an entry of the backup directory is: whether it is a regular file, and
/// whether the database in it is vacant.
#[derive(Debug)]
pub struct BackupFact {
    pub is_file: Result<bool, Error>,
    pub vacant: Result<bool, OpenError>,
}

/// What an entry of the backup directory is.
pub struct BackupFactView {
    pub is_file: Result<bool, Refusal>,
    pub vacant: Result<bool, OpenFault>,
}

impl View for BackupFact {
    type V = BackupFactView;

    open spec fn view(&self) -> BackupFactView {
        BackupFactView {
            is_file: match self.is_file {
                Ok(file) => Ok(file),
                Err(error) => Err(error@),
            },
            vacant: vacancy(self.vacant),
        }
    }
}

/// Whether every backup from `at` on is a vacant database: the first entry that
/// is not decides.
pub open spec fn vacant_backups(backups: Seq<BackupFactView>, at: int) -> Result<bool, OpenFault>
    decreases backups.len() - at,
{
    if at >= backups.len() || at < 0 {
        Ok(true)
    } else {
        match backups[at].is_file {
            Err(refusal) => Err(OpenFault::Association(refusal)),
            Ok(false) => Ok(false),
            Ok(true) => match backups[at].vacant {
                Err(fault) => Err(fault),
                Ok(false) => Ok(false),
                Ok(true) => vacant_backups(backups, at + 1),
            },
        }
    }
}

fn all_vacant(backups: Vec<BackupFact>) -> (r: Result<bool, OpenError>)
    ensures
        vacancy(r) == vacant_backups(backups@.map_values(|b: BackupFact| b@), 0),
{
    let mut rest = backups;
    let ghost facts = backups@.map_values(|b: BackupFact| b@);
    let ghost mut i: int = 0;
    while rest.len() > 0
        invariant
            facts == backups@.map_values(|b: BackupFact| b@),
            0 <= i,
            i + rest@.len() == facts.len(),
            forall|k: int| 0 <= k < rest@.len() ==> (#[trigger] rest@[k])@ == facts[i + k],
            vacant_backups(facts, 0) == vacant_backups(facts, i),
        decreases rest@.len(),
    {
        let ghost before = rest@;
        let fact = rest.remove(0);
        proof {
            assert(before[0]@ == facts[i]);
            assert forall|k: int| 0 <= k < rest@.len() implies (#[trigger] rest@[k])@ == facts[i + 1
                + k] by {
                assert(rest@[k] == before[k + 1]);
            }
        }
        match fact.is_file {
            Err(error) => {
                return Err(OpenError::Association(error));
            },
            Ok(file) => {
                if !file {
                    return Ok(false);
                }
            },
        }
        match fact.vacant {
            Err(error) => {
                return Err(error);
            },
            Ok(vacant) => {
                if !vacant {
                    return Ok(false);
                }
            },
        }
        proof {
            i = i + 1;
        }
    }
    Ok(true)
}

/// Whether a Store holds nothing: its database and all its backups.
pub fn vacant(database: Result<bool, OpenError>, backups: Result<Vec<BackupFact>, Error>) -> (r: Result<
    bool,
    OpenError,
>)
    ensures
        match database {
            Err(error) => r == Err::<bool, OpenError>(error),
            Ok(false) => r == Ok::<bool, OpenError>(false),
            Ok(true) => match backups {
                Err(error) => r == Err::<bool, OpenError>(OpenError::Association(error)),
                Ok(all) => vacancy(r) == vacant_backups(
                    all@.map_values(|b: BackupFact| b@),
                    0,
                ),
            },
        },
{
    match database {
        Err(error) => {
            return Err(error);
        },
        Ok(vacant) => {
            if !vacant {
                return Ok(false);
            }
        },
    }
    match backups {
        Err(error) => Err(OpenError::Association(error)),
        Ok(all) => all_vacant(all),
    }
}

/// What stands at the Git Common Directory that a manifest names.
#[derive(Debug)]
pub enum Former {
    /// A directory, with the pointers configured in it; nothing where Git could
    /// not read them.
    Directory(Option<Vec<String>>),
    /// Nothing, with the names in the directory above; nothing where that could
    /// not be listed.
    Absent(Option<Vec<String>>),
    /// Something else, or it could not be told.
    Unknown,
}

/// What stands at the Git Common Directory that a manifest names.
pub enum FormerView {
    Directory(Option<Seq<Seq<char>>>),
    Absent(Option<Seq<Seq<char>>>),
    Unknown,
}

impl View for Former {
    type V = FormerView;

    open spec fn view(&self) -> FormerView {
        match *self {
            Former::Directory(Some(pointers)) => FormerView::Directory(Some(spread(pointers@))),
            Former::Directory(None) => FormerView::Directory(None),
            Former::Absent(Some(listed)) => FormerView::Absent(Some(spread(listed@))),
            Former::Absent(None) => FormerView::Absent(None),
            Former::Unknown => FormerView::Unknown,
        }
    }
}

/// Whether the repository that a manifest names has let go of the Store: it is
/// this one, or its directory no longer points at the Store, or the directory
/// is gone for certain.
pub open spec fn let_go(manifest: ManifestView, common: Seq<char>, former: FormerView) -> Result<
    (),
    Refusal,
> {
    if same_place(manifest.git_common_dir, common) {
        Ok(())
    } else {
        match former {
            FormerView::Directory(Some(pointers)) => if pointers.contains(manifest.store_id) {
                Err(Refusal::AssociationMismatch)
            } else {
                Ok(())
            },
            FormerView::Absent(Some(listed)) => if listed.len() == 0 {
                Ok(())
            } else {
                match last_name(manifest.git_common_dir) {
                    None => Err(Refusal::Ownership),
                    Some(name) => if listed.contains(name) {
                        Err(Refusal::Ownership)
                    } else {
                        Ok(())
                    },
                }
            },
            _ => Err(Refusal::Ownership),
        }
    }
}

/// Missing ancestors are not proof of release: the volume may be unavailable. A
/// listing of the directory above can confirm that the last name is absent.
pub fn released(manifest: &Manifest, common: &str, former: &Former) -> (r: Result<(), Error>)
    ensures
        match r {
            Ok(()) => let_go(manifest@, common@, former@) is Ok,
            Err(error) => let_go(manifest@, common@, former@) == Err::<(), Refusal>(error@),
        },
{
    let held = manifest.association.git_common_dir.as_str();
    if same_path(held, common) {
        return Ok(());
    }
    match former {
        Former::Directory(Some(pointers)) => {
            if lists(pointers, manifest.store_id.text()) {
                Err(Error::AssociationMismatch)
            } else {
                Ok(())
            }
        },
        Former::Absent(Some(listed)) => {
            if listed.len() == 0 {
                return Ok(());
            }
            match file_name(held) {
                None => Err(Error::Ownership),
                Some(name) => {
                    if lists(listed, name.as_str()) {
                        Err(Error::Ownership)
                    } else {
                        Ok(())
                    }
                },
            }
        },
        _ => Err(Error::Ownership),
    }
}

/// Why a Store comes into question.
#[derive(Debug)]
pub enum Fact {
    /// The repository's pointer names it.
    Referenced,
    /// Its manifest names this Git Common Directory.
    CurrentPath(String),
    /// Its manifest once named this Git Common Directory.
    HistoricalPath(String),
    /// Its manifest shares this remote URL.
    RemoteUrl(String),
    /// The pointer names a Store that is not there.
    MissingStore,
}

/// Why a Store comes into question, texts as characters.
pub enum FactView {
    Referenced,
    CurrentPath(Seq<char>),
    HistoricalPath(Seq<char>),
    RemoteUrl(Seq<char>),
    MissingStore,
}

impl View for Fact {
    type V = FactView;

    open spec fn view(&self) -> FactView {
        match *self {
            Fact::Referenced => FactView::Referenced,
            Fact::CurrentPath(path) => FactView::CurrentPath(path@),
            Fact::HistoricalPath(path) => FactView::HistoricalPath(path@),
            Fact::RemoteUrl(url) => FactView::RemoteUrl(url@),
            Fact::MissingStore => FactView::MissingStore,
        }
    }
}

/// The facts, texts as characters.
pub open spec fn facts_of(facts: Seq<Fact>) -> Seq<FactView> {
    facts.map_values(|f: Fact| f@)
}

/// A Store that comes into question, and whether it can be taken over.
#[derive(Debug)]
pub struct Candidate {
    pub id: String,
    pub facts: Vec<Fact>,
    /// Nothing stands in the way, or what does.
    pub available: Result<(), String>,
}

/// What a search for Stores found.
#[derive(Debug)]
pub struct Report {
    pub candidates: Vec<Candidate>,
    pub pointer_error: Option<Error>,
}

/// An entry of the directory of Stores, with its manifest as checked.
#[derive(Debug)]
pub struct StoreEntry {
    pub name: String,
    pub manifest: Result<Manifest, Error>,
}

/// An entry of the directory of Stores.
pub struct StoreEntryView {
    pub name: Seq<char>,
    pub manifest: Result<ManifestView, Refusal>,
}

impl View for StoreEntry {
    type V = StoreEntryView;

    open spec fn view(&self) -> StoreEntryView {
        StoreEntryView { name: self.name@, manifest: manifest_read(self.manifest) }
    }
}

/// A shortlisted Store: its place in the ranking, the facts, and its manifest.
#[derive(Debug)]
pub struct Shortlisted {
    pub rank: u32,
    pub id: String,
    pub facts: Vec<Fact>,
    pub manifest: Result<Manifest, Error>,
}

/// A shortlisted Store.
pub struct ShortlistedView {
    pub rank: int,
    pub id: Seq<char>,
    pub facts: Seq<FactView>,
    pub manifest: Result<ManifestView, Refusal>,
}

impl View for Shortlisted {
    type V = ShortlistedView;

    open spec fn view(&self) -> ShortlistedView {
        ShortlistedView {
            rank: self.rank as int,
            id: self.id@,
            facts: facts_of(self.facts@),
            manifest: manifest_read(self.manifest),
        }
    }
}

/// The shortlist as values.
pub open spec fn shortlist_of(list: Seq<Shortlisted>) -> Seq<ShortlistedView> {
    list.map_values(|s: Shortlisted| s@)
}

/// What a search for Stores goes by: the pointers configured in the repository,
/// its Git Common Directory and its remote URLs.
pub struct Wanted {
    pub pointers: Seq<Seq<char>>,
    pub common: Seq<char>,
    pub urls: Seq<Seq<char>>,
}

impl Wanted {
    /// The former paths that are this repository's.
    pub open spec fn historical(self) -> spec_fn(Seq<char>) -> bool {
        |path: Seq<char>| same_place(path, self.common)
    }

    /// The remote URLs that this repository has too.
    pub open spec fn shared(self) -> spec_fn(Seq<char>) -> bool {
        |url: Seq<char>| self.urls.contains(url)
    }

    /// What a manifest says for the Store: first the current path, then every
    /// former one, then every remote URL, as far as they are the repository's.
    pub open spec fn evidence(self, manifest: ManifestView) -> Seq<FactView> {
        let current = if same_place(manifest.git_common_dir, self.common) {
            seq![FactView::CurrentPath(self.common)]
        } else {
            Seq::<FactView>::empty()
        };
        current + manifest.previous_git_common_dirs.filter(self.historical()).map_values(
            |path: Seq<char>| FactView::HistoricalPath(path),
        ) + manifest.git_remote_urls.filter(self.shared()).map_values(
            |url: Seq<char>| FactView::RemoteUrl(url),
        )
    }

    /// The facts that speak for an entry.
    pub open spec fn facts(self, entry: StoreEntryView) -> Seq<FactView> {
        let referenced = if self.pointers.contains(entry.name) {
            seq![FactView::Referenced]
        } else {
            Seq::<FactView>::empty()
        };
        match entry.manifest {
            Ok(manifest) => referenced + self.evidence(manifest),
            Err(_) => referenced,
        }
    }

    /// The place of an entry in the ranking: by the strongest fact, an entry
    /// without any last.
    pub open spec fn rank(self, entry: StoreEntryView) -> int {
        if self.pointers.contains(entry.name) {
            0
        } else {
            match entry.manifest {
                Err(_) => u32::MAX as int,
                Ok(manifest) => if same_place(manifest.git_common_dir, self.common) {
                    1
                } else if manifest.previous_git_common_dirs.filter(self.historical()).len() > 0 {
                    2
                } else if manifest.git_remote_urls.filter(self.shared()).len() > 0 {
                    3
                } else {
                    u32::MAX as int
                },
            }
        }
    }

    /// The entries that are shortlisted, in the order of the directory: those
    /// that a fact speaks for, and those whose manifest is no good. The
    /// directory of unfinished migrations is not one.
    pub open spec fn from_entries(self, entries: Seq<StoreEntryView>) -> Seq<ShortlistedView>
        decreases entries.len(),
    {
        if entries.len() == 0 {
            Seq::empty()
        } else {
            let before = self.from_entries(entries.drop_last());
            let entry = entries.last();
            if entry.name == ".migrations"@ || (self.facts(entry).len() == 0 && entry.manifest is Ok) {
                before
            } else {
                before.push(
                    ShortlistedView {
                        rank: self.rank(entry),
                        id: entry.name,
                        facts: self.facts(entry),
                        manifest: entry.manifest,
                    },
                )
            }
        }
    }

    /// The shortlist with the Stores that the first `count` pointers name and
    /// that are not on it.
    pub open spec fn with_missing(self, list: Seq<ShortlistedView>, count: int) -> Seq<ShortlistedView>
        decreases count,
    {
        if count <= 0 {
            list
        } else {
            let before = self.with_missing(list, count - 1);
            let id = self.pointers[count - 1];
            if is_store_id(id) && !on_list(before, id) {
                before.push(missing_store(id))
            } else {
                before
            }
        }
    }

    /// All shortlisted Stores.
    pub open spec fn shortlist(self, entries: Seq<StoreEntryView>) -> Seq<ShortlistedView> {
        self.with_missing(self.from_entries(entries), self.pointers.len() as int)
    }
}

/// Whether a Store is on the list.
pub open spec fn on_list(list: Seq<ShortlistedView>, id: Seq<char>) -> bool {
    exists|i: int| 0 <= i < list.len() && (#[trigger] list[i]).id == id
}

/// A Store that a pointer names and that is not there.
pub open spec fn missing_store(id: Seq<char>) -> ShortlistedView {
    ShortlistedView {
        rank: 0,
        id,
        facts: seq![FactView::Referenced, FactView::MissingStore],
        manifest: Err(Refusal::Manifest),
    }
}

/// The order of the shortlist: by rank, and by ID within a rank.
pub open spec fn ranked() -> spec_fn(ShortlistedView, ShortlistedView) -> bool {
    |a: ShortlistedView, b: ShortlistedView|
        a.rank < b.rank || (a.rank == b.rank && text_le(a.id, b.id))
}

proof fn lemma_ranked_trans(a: ShortlistedView, b: ShortlistedView, c: ShortlistedView)
    requires
        ranked()(a, b),
        ranked()(b, c),
    ensures
        ranked()(a, c),
{
    if a.rank == b.rank && b.rank == c.rank {
        lemma_text_le_trans(a.id, b.id, c.id);
    }
}

proof fn lemma_insert_ranked(all: Seq<ShortlistedView>, at: int, one: ShortlistedView)
    requires
        sorted_by(all, ranked()),
        0 <= at <= all.len(),
        at > 0 ==> ranked()(all[at - 1], one),
        at < all.len() ==> ranked()(one, all[at]),
    ensures
        sorted_by(all.insert(at, one), ranked()),
        all.insert(at, one).to_multiset() == all.to_multiset().insert(one),
{
    vstd::seq_lib::to_multiset_insert(all, at, one);
    let more = all.insert(at, one);
    assert forall|i: int, j: int| 0 <= i < j < more.len() implies #[trigger] ranked()(
        more[i],
        more[j],
    ) by {
        let a = if i < at { i } else { i - 1 };
        let b = if j < at { j } else { j - 1 };
        if i != at && j != at {
            assert(ranked()(all[a], all[b]));
        } else if j == at {
            if i < at - 1 {
                assert(ranked()(all[i], all[at - 1]));
                lemma_ranked_trans(all[i], all[at - 1], one);
            }
        } else {
            if j > at + 1 {
                assert(ranked()(all[at], all[j - 1]));
                lemma_ranked_trans(one, all[at], all[j - 1]);
            }
        }
    }
}

/// Put a Store where it belongs on the ranked list.
fn place_ranked(list: &mut Vec<Shortlisted>, one: Shortlisted)
    requires
        sorted_by(shortlist_of(old(list)@), ranked()),
    ensures
        sorted_by(shortlist_of(final(list)@), ranked()),
        shortlist_of(final(list)@).to_multiset() == shortlist_of(old(list)@).to_multiset().insert(one@),
{
    let mut at: usize = list.len();
    let ghost views = shortlist_of(list@);
    while at > 0 && !(list[at - 1].rank < one.rank || (list[at - 1].rank == one.rank && not_after(
        list[at - 1].id.as_str(),
        one.id.as_str(),
    )))
        invariant
            0 <= at <= list@.len(),
            views == shortlist_of(list@),
            at < views.len() ==> ranked()(one@, views[at as int]),
        decreases at,
    {
        proof {
            lemma_text_le_total(one.id@, list@[at - 1].id@);
            assert(views[at - 1] == list@[at - 1]@);
        }
        at = at - 1;
    }
    proof {
        if at > 0 {
            assert(views[at - 1] == list@[at - 1]@);
        }
        lemma_insert_ranked(views, at as int, one@);
    }
    let ghost view = one@;
    list.insert(at, one);
    proof {
        assert(shortlist_of(list@) =~= views.insert(at as int, view));
    }
}

/// Add the former paths that are this repository's.
fn add_historical(facts: &mut Vec<Fact>, paths: &Vec<String>, common: &str, Ghost(wanted): Ghost<Wanted>) -> (r: bool)
    requires
        wanted.common == common@,
    ensures
        facts_of(final(facts)@) == facts_of(old(facts)@) + spread(paths@).filter(
            wanted.historical(),
        ).map_values(|path: Seq<char>| FactView::HistoricalPath(path)),
        r == (spread(paths@).filter(wanted.historical()).len() > 0),
{
    let mut any = false;
    let mut i: usize = 0;
    let ghost all = spread(paths@);
    let ghost cond = wanted.historical();
    let ghost start = facts_of(facts@);
    let ghost shown = |path: Seq<char>| FactView::HistoricalPath(path);
    proof {
        lemma_filter_none(all, cond);
        assert(start + all.take(0).filter(cond).map_values(shown) =~= start);
    }
    while i < paths.len()
        invariant
            0 <= i <= paths@.len(),
            all == spread(paths@),
            cond == wanted.historical(),
            wanted.common == common@,
            facts_of(facts@) == start + all.take(i as int).filter(cond).map_values(shown),
            any == (all.take(i as int).filter(cond).len() > 0),
            forall|path: Seq<char>| #[trigger] shown(path) == FactView::HistoricalPath(path),
        decreases paths@.len() - i,
    {
        let path = paths[i].as_str();
        proof {
            lemma_filter_step(all, cond, i as int);
            assert(all[i as int] == path@);
        }
        if same_path(path, common) {
            any = true;
            let ghost before = facts_of(facts@);
            let ghost kept = all.take(i as int).filter(cond);
            facts.push(Fact::HistoricalPath(path.to_owned()));
            proof {
                assert(facts_of(facts@) =~= before.push(FactView::HistoricalPath(path@)));
                assert(kept.push(path@).map_values(shown) =~= kept.map_values(shown).push(
                    shown(path@),
                ));
                assert(facts_of(facts@) =~= start + all.take(i + 1).filter(cond).map_values(shown));
            }
        }
        i = i + 1;
    }
    proof {
        lemma_filter_all(all, cond);
        assert(all.filter(cond).map_values(shown) =~= all.filter(cond).map_values(
            |path: Seq<char>| FactView::HistoricalPath(path),
        ));
    }
    any
}

/// Add the remote URLs that this repository has too.
fn add_shared(facts: &mut Vec<Fact>, urls: &Vec<String>, ours: &Vec<String>, Ghost(wanted): Ghost<Wanted>) -> (r: bool)
    requires
        wanted.urls == spread(ours@),
    ensures
        facts_of(final(facts)@) == facts_of(old(facts)@) + spread(urls@).filter(
            wanted.shared(),
        ).map_values(|url: Seq<char>| FactView::RemoteUrl(url)),
        r == (spread(urls@).filter(wanted.shared()).len() > 0),
{
    let mut any = false;
    let mut i: usize = 0;
    let ghost all = spread(urls@);
    let ghost cond = wanted.shared();
    let ghost start = facts_of(facts@);
    let ghost shown = |url: Seq<char>| FactView::RemoteUrl(url);
    proof {
        lemma_filter_none(all, cond);
        assert(start + all.take(0).filter(cond).map_values(shown) =~= start);
    }
    while i < urls.len()
        invariant
            0 <= i <= urls@.len(),
            all == spread(urls@),
            cond == wanted.shared(),
            wanted.urls == spread(ours@),
            facts_of(facts@) == start + all.take(i as int).filter(cond).map_values(shown),
            any == (all.take(i as int).filter(cond).len() > 0),
            forall|url: Seq<char>| #[trigger] shown(url) == FactView::RemoteUrl(url),
        decreases urls@.len() - i,
    {
        let url = urls[i].as_str();
        proof {
            lemma_filter_step(all, cond, i as int);
            assert(all[i as int] == url@);
        }
        if lists(ours, url) {
            any = true;
            let ghost before = facts_of(facts@);
            let ghost kept = all.take(i as int).filter(cond);
            facts.push(Fact::RemoteUrl(url.to_owned()));
            proof {
                assert(facts_of(facts@) =~= before.push(FactView::RemoteUrl(url@)));
                assert(kept.push(url@).map_values(shown) =~= kept.map_values(shown).push(shown(url@)));
                assert(facts_of(facts@) =~= start + all.take(i + 1).filter(cond).map_values(shown));
            }
        }
        i = i + 1;
    }
    proof {
        lemma_filter_all(all, cond);
        assert(all.filter(cond).map_values(shown) =~= all.filter(cond).map_values(
            |url: Seq<char>| FactView::RemoteUrl(url),
        ));
    }
    any
}

/// The facts that speak for an entry, and its place in the ranking.
fn weigh(
    entry: &StoreEntry,
    pointers: &Vec<String>,
    common: &str,
    urls: &Vec<String>,
    Ghost(wanted): Ghost<Wanted>,
) -> (r: (u32, Vec<Fact>))
    requires
        wanted.pointers == spread(pointers@),
        wanted.common == common@,
        wanted.urls == spread(urls@),
    ensures
        r.0 == wanted.rank(entry@),
        facts_of(r.1@) == wanted.facts(entry@),
{
    let mut facts: Vec<Fact> = Vec::new();
    let mut rank: u32 = u32::MAX;
    proof {
        assert(facts_of(facts@) =~= Seq::<FactView>::empty());
    }
    if lists(pointers, entry.name.as_str()) {
        rank = 0;
        facts.push(Fact::Referenced);
        proof {
            assert(facts_of(facts@) =~= seq![FactView::Referenced]);
        }
    }
    match &entry.manifest {
        Err(_) => {},
        Ok(manifest) => {
            let ghost start = facts_of(facts@);
            let ghost said = manifest@;
            if same_path(manifest.association.git_common_dir.as_str(), common) {
                if rank > 1 {
                    rank = 1;
                }
                facts.push(Fact::CurrentPath(common.to_owned()));
                proof {
                    assert(facts_of(facts@) =~= start + seq![FactView::CurrentPath(common@)]);
                }
            } else {
                proof {
                    assert(start =~= start + Seq::<FactView>::empty());
                }
            }
            let once = add_historical(
                &mut facts,
                &manifest.evidence.previous_git_common_dirs,
                common,
                Ghost(wanted),
            );
            if once && rank > 2 {
                rank = 2;
            }
            let shared = add_shared(
                &mut facts,
                &manifest.evidence.git_remote_urls,
                urls,
                Ghost(wanted),
            );
            if shared && rank > 3 {
                rank = 3;
            }
            proof {
                assert(facts_of(facts@) =~= start + wanted.evidence(said));
            }
        },
    }
    (rank, facts)
}

proof fn lemma_on_list(a: Seq<ShortlistedView>, b: Seq<ShortlistedView>, id: Seq<char>)
    requires
        a.to_multiset() == b.to_multiset(),
    ensures
        on_list(a, id) == on_list(b, id),
{
    a.to_multiset_ensures();
    b.to_multiset_ensures();
    if on_list(a, id) {
        let i = choose|i: int| 0 <= i < a.len() && (#[trigger] a[i]).id == id;
        assert(a.contains(a[i]));
        assert(a.to_multiset().count(a[i]) > 0);
        assert(b.to_multiset().count(a[i]) > 0);
        assert(b.contains(a[i]));
        let j = choose|j: int| 0 <= j < b.len() && b[j] == a[i];
        assert(b[j].id == id);
    }
    if on_list(b, id) {
        let i = choose|i: int| 0 <= i < b.len() && (#[trigger] b[i]).id == id;
        assert(b.contains(b[i]));
        assert(b.to_multiset().count(b[i]) > 0);
        assert(a.to_multiset().count(b[i]) > 0);
        assert(a.contains(b[i]));
        let j = choose|j: int| 0 <= j < a.len() && a[j] == b[i];
        assert(a[j].id == id);
    }
}

fn find_listed(list: &Vec<Shortlisted>, id: &str) -> (r: bool)
    ensures
        r == on_list(shortlist_of(list@), id@),
{
    let ghost views = shortlist_of(list@);
    let mut i: usize = 0;
    while i < list.len()
        invariant
            0 <= i <= list@.len(),
            views == shortlist_of(list@),
            forall|k: int| 0 <= k < i ==> (#[trigger] views[k]).id != id@,
        decreases list@.len() - i,
    {
        if same_text(list[i].id.as_str(), id) {
            proof {
                assert(views[i as int].id == id@);
            }
            return true;
        }
        i = i + 1;
    }
    false
}

/// Rank the Stores that come into question: those that the repository's
/// pointers name first, then those whose manifest names its Git Common
/// Directory, then those that once did, then those that share a remote URL,
/// and last those whose manifest is no good; by ID within a rank.
pub fn discover(entries: Vec<StoreEntry>, pointers: &Vec<String>, common: &str, urls: &Vec<String>) -> (r:
    Vec<Shortlisted>)
    ensures
        ({
            let wanted = Wanted {
                pointers: spread(pointers@),
                common: common@,
                urls: spread(urls@),
            };
            &&& sorted_by(shortlist_of(r@), ranked())
            &&& shortlist_of(r@).to_multiset() == wanted.shortlist(
                entries@.map_values(|e: StoreEntry| e@),
            ).to_multiset()
        }),
{
    let ghost wanted = Wanted { pointers: spread(pointers@), common: common@, urls: spread(urls@) };
    let mut list: Vec<Shortlisted> = Vec::new();
    let mut rest = entries;
    let ghost all = rest@.map_values(|e: StoreEntry| e@);
    let ghost mut i: int = 0;
    proof {
        assert(all.take(0) =~= Seq::<StoreEntryView>::empty());
        assert(shortlist_of(list@) =~= wanted.from_entries(all.take(0)));
    }
    while rest.len() > 0
        invariant
            0 <= i,
            i + rest@.len() == all.len(),
            forall|k: int| 0 <= k < rest@.len() ==> (#[trigger] rest@[k])@ == all[i + k],
            wanted == (Wanted { pointers: spread(pointers@), common: common@, urls: spread(urls@) }),
            sorted_by(shortlist_of(list@), ranked()),
            shortlist_of(list@).to_multiset() == wanted.from_entries(all.take(i)).to_multiset(),
        decreases rest@.len(),
    {
        let ghost before = rest@;
        let ghost listed = wanted.from_entries(all.take(i));
        let entry = rest.remove(0);
        proof {
            assert(before[0]@ == all[i]);
            assert forall|k: int| 0 <= k < rest@.len() implies (#[trigger] rest@[k])@ == all[i + 1 + k] by {
                assert(rest@[k] == before[k + 1]);
            }
            assert(all.take(i + 1).drop_last() =~= all.take(i));
            assert(all.take(i + 1).last() == all[i]);
        }
        if !same_text(entry.name.as_str(), ".migrations") {
            let (rank, facts) = weigh(&entry, pointers, common, urls, Ghost(wanted));
            let bad = match &entry.manifest {
                Ok(_) => false,
                Err(_) => true,
            };
            if facts.len() > 0 || bad {
                let ghost view = ShortlistedView {
                    rank: wanted.rank(all[i]),
                    id: all[i].name,
                    facts: wanted.facts(all[i]),
                    manifest: all[i].manifest,
                };
                let one = Shortlisted { rank, id: entry.name, facts, manifest: entry.manifest };
                proof {
                    assert(one@ == view);
                    vstd::seq_lib::to_multiset_build(listed, view);
                }
                place_ranked(&mut list, one);
            } else {
                proof {
                    assert(facts_of(facts@).len() == 0);
                }
            }
        }
        proof {
            i = i + 1;
        }
    }
    proof {
        assert(all.take(all.len() as int) =~= all);
    }
    let ghost found = wanted.from_entries(all);
    let mut k: usize = 0;
    while k < pointers.len()
        invariant
            0 <= k <= pointers@.len(),
            wanted == (Wanted { pointers: spread(pointers@), common: common@, urls: spread(urls@) }),
            sorted_by(shortlist_of(list@), ranked()),
            shortlist_of(list@).to_multiset() == wanted.with_missing(found, k as int).to_multiset(),
        decreases pointers@.len() - k,
    {
        let ghost listed = wanted.with_missing(found, k as int);
        proof {
            assert(wanted.pointers[k as int] == pointers@[k as int]@);
            lemma_on_list(shortlist_of(list@), listed, pointers@[k as int]@);
        }
        let known = find_listed(&list, pointers[k].as_str());
        match StoreId::try_from(pointers[k].clone()) {
            Ok(id) => {
                if !known {
                    let mut facts: Vec<Fact> = Vec::new();
                    facts.push(Fact::Referenced);
                    facts.push(Fact::MissingStore);
                    let ghost view = missing_store(id@);
                    let one = Shortlisted {
                        rank: 0,
                        id: id.into_text(),
                        facts,
                        manifest: Err(Error::Manifest),
                    };
                    proof {
                        assert(one@.facts =~= view.facts);
                        assert(one@ == view);
                        vstd::seq_lib::to_multiset_build(listed, view);
                    }
                    place_ranked(&mut list, one);
                }
            },
            Err(_) => {},
        }
        k = k + 1;
    }
    list
}

/// Refuse to create a Store where a fact speaks for one that is there.
pub fn refuse_recovery(list: &Vec<Shortlisted>) -> (r: Result<(), Error>)
    ensures
        match r {
            Ok(()) => forall|i: int|
                0 <= i < list@.len() ==> (#[trigger] list@[i])@.facts.len() == 0,
            Err(error) => error@ == Refusal::Recovery && exists|i: int|
                0 <= i < list@.len() && (#[trigger] list@[i])@.facts.len() > 0,
        },
{
    let mut i: usize = 0;
    while i < list.len()
        invariant
            0 <= i <= list@.len(),
            forall|k: int| 0 <= k < i ==> (#[trigger] list@[k])@.facts.len() == 0,
        decreases list@.len() - i,
    {
        if list[i].facts.len() > 0 {
            proof {
                assert(list@[i as int]@.facts.len() > 0);
            }
            return Err(Error::Recovery);
        }
        i = i + 1;
    }
    Ok(())
}

/// Whether a shortlisted Store can be taken over, and what stands in the way if
/// not: its manifest, its lock, its owner, or its database, the first of these.
pub fn availability(
    manifest: &Result<Manifest, Error>,
    lock: Result<(), Error>,
    owner: Result<(), Error>,
    database: Result<(), OpenError>,
) -> (r: Result<(), String>)
    ensures
        match *manifest {
            Err(error) => r is Err && r->Err_0@ == error@.message(),
            Ok(_) => match lock {
                Err(error) => r is Err && r->Err_0@ == error@.message(),
                Ok(()) => match owner {
                    Err(error) => r is Err && r->Err_0@ == error@.message(),
                    Ok(()) => match database {
                        Err(error) => r is Err && r->Err_0@ == error@.message(),
                        Ok(()) => r is Ok,
                    },
                },
            },
        },
{
    match manifest {
        Err(error) => {
            return Err(error.message());
        },
        Ok(_) => {},
    }
    match lock {
        Err(error) => {
            return Err(error.message());
        },
        Ok(()) => {},
    }
    match owner {
        Err(error) => {
            return Err(error.message());
        },
        Ok(()) => {},
    }
    match database {
        Err(error) => Err(error.message()),
        Ok(()) => Ok(()),
    }
}

/// A Store that another repository still holds, or may hold, is never released:
/// either the manifest's own directory asks, or that directory was seen not to
/// point at it, or was seen to be gone.
pub proof fn law_release_needs_evidence(manifest: ManifestView, common: Seq<char>, former: FormerView)
    requires
        let_go(manifest, common, former) is Ok,
    ensures
        same_place(manifest.git_common_dir, common) || (former matches FormerView::Directory(
            Some(pointers),
        ) && !pointers.contains(manifest.store_id)) || (former matches FormerView::Absent(
            Some(listed),
        ) && (listed.len() == 0 || (last_name(manifest.git_common_dir) matches Some(name)
            && !listed.contains(name)))),
{
}

/// A Store that the repository's pointer names ranks before every Store that it
/// does not name.
pub proof fn law_referenced_stores_come_first(
    wanted: Wanted,
    named: StoreEntryView,
    other: StoreEntryView,
)
    requires
        wanted.pointers.contains(named.name),
        !wanted.pointers.contains(other.name),
    ensures
        wanted.rank(named) < wanted.rank(other),
{
}

} // verus!
