//! The life of a Store: identity, association, recovery, creation and the
//! cutover from a legacy Store.

use rand::rngs::StdRng;
use rand::SeedableRng;
use tk_store::association::{
    locked, parse_pointer, pointer, read_manifest, refuse_legacy, reserve, staged_name, stores_root,
    validate,
    Association, Error, Evidence, Lock, Made, Manifest, Probe, StoreId,
};
use tk_store::initialize::{
    initialize, require_write_ahead, seed_display_prefix, Initialized, Reply, Setup, Task,
};
use tk_store::migrations::APPLICATION_ID;
use tk_store::paths::{file_name, is_rooted, join, names_of, parent, same_path};
use tk_store::recovery::{
    availability, discover, inspect_database, predicate, probe_query, refuse_recovery, released, vacant,
    vacant_database, BackupFact, DatabaseImage, Fact, Former, StoreEntry, TableFact,
};
use tk_store::relocation::cutover;
use tk_store::relocation::metadata::{
    access, allowed, backups_of, pending, read_progress, read_receipt, refuse_pending, regular, stage, FileHash,
    Progress, Receipt, Traces,
};
use tk_store::relocation::source::{
    are_listed, are_same, fingerprint, has_moved, inventory, refuse_links, removals,
    require_rollback_journal, BackupContent, BackupEntry, Content, FileIdentity, SourceEntry,
};
use tk_store::relocation::{migrate, Boundary, Cutover, Leftover, Step};
use tk_store::repository::{open_existing, OpenError};

const ID: &str = "0123456789abcdef0123456789abcdef";
const OTHER: &str = "ffffffffffffffffffffffffffffffff";

fn id(text: &str) -> StoreId {
    StoreId::try_from(text.to_owned()).unwrap()
}

fn texts(all: &[&str]) -> Vec<String> {
    all.iter().map(|t| t.to_string()).collect()
}

fn absent() -> Probe {
    Probe::Absent("no such file".to_owned())
}

fn manifest(store: &str, common: &str) -> Manifest {
    Manifest {
        version: 1,
        store_id: id(store),
        association: Association { git_common_dir: common.to_owned() },
        evidence: Evidence { previous_git_common_dirs: Vec::new(), git_remote_urls: Vec::new() },
    }
}

// Paths.

#[test]
fn paths_are_compared_by_their_names() {
    assert_eq!(names_of("/a//b/./c/"), texts(&["a", "b", "c"]));
    assert!(same_path("/a//b/./c/", "/a/b/c"));
    assert!(!same_path("/a/b", "a/b"));
    assert!(!same_path("/a/b", "/a/c"));
    assert!(is_rooted("/a"));
    assert!(!is_rooted("a"));
    assert_eq!(file_name("/a/b/"), Some("b".to_owned()));
    assert_eq!(file_name("/"), None);
    assert_eq!(file_name("/a/.."), None);
    assert_eq!(parent("/a/b"), Some("/a".to_owned()));
    assert_eq!(parent("/"), None);
    assert_eq!(join("/a", "b"), "/a/b");
    assert_eq!(join("/a/", "b"), "/a/b");
}

// Identity and association.

#[test]
fn a_store_id_is_32_lower_case_digits() {
    assert_eq!(id(ID).text(), ID);
    assert_eq!(id(ID).copy().into_text(), ID);
    for bad in ["", "0123", &ID.to_uppercase(), &format!("{ID}0"), &format!("{}g", &ID[1..])] {
        assert!(matches!(StoreId::try_from(bad.to_owned()), Err(Error::InvalidPointer)), "{bad}");
    }
}

#[test]
fn a_drawn_store_id_reads_back() {
    let mut rng = StdRng::seed_from_u64(11);
    let one = StoreId::generate(&mut rng);
    let two = StoreId::generate(&mut rng);
    assert_ne!(one.text(), two.text());
    let found = parse_pointer(&texts(&[one.text()])).unwrap().unwrap();
    assert_eq!(found.text(), one.text());
}

#[test]
fn the_data_root_must_be_absolute() {
    assert_eq!(stores_root(Some("/data")).unwrap(), "/data/tk/stores");
    assert!(matches!(stores_root(Some("data")), Err(Error::DataRoot)));
    assert!(matches!(stores_root(None), Err(Error::DataRoot)));
}

#[test]
fn one_pointer_names_one_store() {
    assert!(parse_pointer(&Vec::new()).unwrap().is_none());
    assert!(matches!(parse_pointer(&texts(&[ID, OTHER])), Err(Error::DuplicatePointer)));
    assert!(matches!(parse_pointer(&texts(&["nope"])), Err(Error::InvalidPointer)));
    assert!(matches!(pointer(Err("git failed".to_owned())), Err(Error::Git(text)) if text == "git failed"));
    assert_eq!(pointer(Ok(texts(&[ID]))).unwrap().unwrap().text(), ID);
}

#[test]
fn a_manifest_lets_in_its_own_repository_only() {
    let store = id(ID);
    let opened = |common: &str, probe: Probe, read: Result<Manifest, Error>| {
        validate("/data/tk/stores", &store, common, &probe, read)
    };
    assert_eq!(
        opened("/repo/.git", Probe::Directory, Ok(manifest(ID, "/repo/.git"))).unwrap(),
        format!("/data/tk/stores/{ID}/tk.db")
    );
    assert!(matches!(
        opened("/other/.git", Probe::Directory, Ok(manifest(ID, "/repo/.git"))),
        Err(Error::AssociationMismatch)
    ));
    assert!(matches!(
        opened("/repo/.git", Probe::Directory, Ok(manifest(OTHER, "/repo/.git"))),
        Err(Error::Manifest)
    ));
    assert!(matches!(
        opened("/repo/.git", Probe::File, Ok(manifest(ID, "/repo/.git"))),
        Err(Error::Manifest)
    ));
    assert!(matches!(
        opened("/repo/.git", absent(), Ok(manifest(ID, "/repo/.git"))),
        Err(Error::Io(text)) if text == "no such file"
    ));
    assert!(matches!(
        opened("/repo/.git", Probe::Directory, Err(Error::Manifest)),
        Err(Error::Manifest)
    ));
}

#[test]
fn a_manifest_is_of_the_known_version_with_absolute_paths() {
    let mut newer = manifest(ID, "/repo/.git");
    newer.version = 2;
    assert!(matches!(read_manifest(ID, &Probe::Directory, Ok(newer)), Err(Error::Manifest)));
    assert!(matches!(
        read_manifest(ID, &Probe::Directory, Ok(manifest(ID, "repo/.git"))),
        Err(Error::Manifest)
    ));
    let mut past = manifest(ID, "/repo/.git");
    past.evidence.previous_git_common_dirs = texts(&["/old/.git", "older/.git"]);
    assert!(matches!(read_manifest(ID, &Probe::Directory, Ok(past)), Err(Error::Manifest)));
    let mut sound = manifest(ID, "/repo/.git");
    sound.evidence.previous_git_common_dirs = texts(&["/old/.git"]);
    assert!(read_manifest(ID, &Probe::Directory, Ok(sound)).is_ok());
}

#[test]
fn refusals_of_the_file_system_are_passed_on() {
    assert!(refuse_legacy(&absent()).is_ok());
    assert!(matches!(refuse_legacy(&Probe::Directory), Err(Error::Legacy)));
    assert!(matches!(refuse_legacy(&Probe::Unreadable("denied".to_owned())), Err(Error::Io(_))));
    assert!(locked(Lock::Held).is_ok());
    assert!(matches!(locked(Lock::WouldBlock), Err(Error::Busy)));
    assert!(matches!(locked(Lock::Failed("x".to_owned())), Err(Error::Io(text)) if text == "x"));
    let store = id(ID);
    assert_eq!(staged_name(&store), format!("store.json.{ID}.pending"));
    assert_eq!(reserve("/s", &store, Made::Created).unwrap(), format!("/s/{ID}"));
    assert!(matches!(reserve("/s", &store, Made::AlreadyExists), Err(Error::Collision)));
    assert!(matches!(reserve("/s", &store, Made::Failed("x".to_owned())), Err(Error::Io(_))));
}

#[test]
fn every_refusal_says_what_it_is() {
    let said = [
        (Error::DataRoot, "platform-local data directory is unavailable or is not absolute"),
        (
            Error::InvalidPointer,
            "repository-local tk.storeId must be exactly 32 lowercase hexadecimal characters",
        ),
        (
            Error::DuplicatePointer,
            "multiple repository-local tk.storeId values; restore a single valid Store pointer",
        ),
        (
            Error::Legacy,
            "legacy Repository Store data exists; stop all tk processes, then run 'tk init'; data was preserved",
        ),
        (
            Error::Migration("why".to_owned()),
            "legacy Repository Store migration: why; keep old tk processes stopped and retry 'tk init'; data was preserved",
        ),
        (Error::Recovery, "Store evidence requires recovery; run 'tk init'; data was preserved"),
        (Error::Healthy, "current repository has a healthy Store Association; attach/new refused"),
        (Error::Ownership, "Store ownership is live or unknown; data was preserved"),
        (
            Error::Manifest,
            "Repository Store manifest is invalid or belongs to a newer tk version; restore metadata manually; data was preserved",
        ),
        (
            Error::AssociationMismatch,
            "Repository Store belongs to another Git Common Directory; data was preserved",
        ),
        (Error::Collision, "Store ID collision; the existing directory was preserved"),
        (Error::Busy, "another Store lifecycle operation is running; retry when it finishes"),
        (Error::Git("git says no".to_owned()), "git says no"),
        (Error::Io("disk full".to_owned()), "Repository Store filesystem error: disk full"),
    ];
    for (error, message) in said {
        assert_eq!(error.message(), message);
    }
    assert_eq!(
        OpenError::StoreMissing.message(),
        "Repository Store not initialized; run 'tk init'"
    );
    assert_eq!(
        OpenError::NotTicketStore.message(),
        "Repository Store is not a tk Repository Store"
    );
    assert_eq!(
        OpenError::FromFutureVersion.message(),
        "Repository Store was created by a newer tk version"
    );
    assert_eq!(OpenError::Sqlite("locked".to_owned()).message(), "locked");
    assert_eq!(OpenError::DiscoveryFailed("not a repository".to_owned()).message(), "not a repository");
}

#[test]
fn opening_asks_for_a_known_store() {
    let tk = Ok(i64::from(APPLICATION_ID));
    assert!(open_existing(Ok(true), &tk, &Ok(16)).is_ok());
    assert!(matches!(open_existing(Ok(false), &tk, &Ok(16)), Err(OpenError::StoreMissing)));
    assert!(matches!(open_existing(Ok(true), &Ok(0), &Ok(16)), Err(OpenError::NotTicketStore)));
    assert!(matches!(open_existing(Ok(true), &tk, &Ok(17)), Err(OpenError::FromFutureVersion)));
    assert!(matches!(
        open_existing(Err("no git".to_owned()), &tk, &Ok(16)),
        Err(OpenError::DiscoveryFailed(_))
    ));
    assert!(matches!(
        open_existing(Ok(true), &tk, &Err("corrupt".to_owned())),
        Err(OpenError::Sqlite(_))
    ));
}

// Recovery.

const TABLES: [&str; 11] = [
    "schema_migrations",
    "sequences",
    "store_config",
    "items",
    "item_ids",
    "dependencies",
    "external_blockers",
    "mutations",
    "remotes",
    "sync_cursors",
    "former_backend_identities",
];

fn image() -> DatabaseImage {
    DatabaseImage {
        application_id: Ok(i64::from(APPLICATION_ID)),
        version: Ok(16),
        quick_check: Ok("ok".to_owned()),
        dangling: Ok(false),
        user_version: Ok(16),
        recorded: Ok(16),
        tables: Ok(TABLES
            .iter()
            .map(|name| TableFact { name: name.to_string(), occupied: Ok(false) })
            .collect()),
    }
}

#[test]
fn a_sound_database_passes_inspection() {
    assert!(inspect_database(&image()).is_ok());
    let foreign = DatabaseImage { application_id: Ok(7), ..image() };
    assert!(matches!(inspect_database(&foreign), Err(OpenError::NotTicketStore)));
    let newer = DatabaseImage { version: Ok(17), ..image() };
    assert!(matches!(inspect_database(&newer), Err(OpenError::FromFutureVersion)));
    let bare = DatabaseImage { version: Ok(0), ..image() };
    assert!(matches!(inspect_database(&bare), Err(OpenError::NotTicketStore)));
    let broken = DatabaseImage { quick_check: Ok("row 3 missing".to_owned()), ..image() };
    assert!(matches!(inspect_database(&broken), Err(OpenError::NotTicketStore)));
    let dangling = DatabaseImage { dangling: Ok(true), ..image() };
    assert!(matches!(inspect_database(&dangling), Err(OpenError::NotTicketStore)));
    let unread = DatabaseImage { quick_check: Err("io".to_owned()), ..image() };
    assert!(matches!(inspect_database(&unread), Err(OpenError::Sqlite(text)) if text == "io"));
}

#[test]
fn a_vacant_database_holds_what_a_fresh_one_does() {
    assert!(vacant_database(&image()).unwrap());
    let mut used = image();
    used.tables.as_mut().unwrap()[3].occupied = Ok(true);
    assert!(!vacant_database(&used).unwrap());
    let mut short = image();
    short.tables.as_mut().unwrap().pop();
    assert!(matches!(vacant_database(&short), Err(OpenError::NotTicketStore)));
    let old = DatabaseImage { version: Ok(12), user_version: Ok(12), recorded: Ok(12), ..short };
    assert!(vacant_database(&old).unwrap());
    let apart = DatabaseImage { user_version: Ok(15), ..image() };
    assert!(matches!(vacant_database(&apart), Err(OpenError::NotTicketStore)));
    let holes = DatabaseImage { recorded: Ok(15), ..image() };
    assert!(matches!(vacant_database(&holes), Err(OpenError::NotTicketStore)));
}

#[test]
fn probes_quote_the_table_name() {
    assert_eq!(
        probe_query("it\"ems"),
        "select 1 from \"it\"\"ems\" where 1 limit 1"
    );
    assert_eq!(
        probe_query("store_config"),
        "select 1 from \"store_config\" where key != 'display_prefix' limit 1"
    );
    assert_eq!(predicate("schema_migrations"), "version < 1");
    assert_eq!(
        predicate("sequences"),
        "value != 0 or name not in ('item_created_seq', 'display_seq', 'mutation_seq')"
    );
}

#[test]
fn a_store_is_vacant_with_all_its_backups() {
    let backup = |vacant: bool| BackupFact { is_file: Ok(true), vacant: Ok(vacant) };
    assert!(vacant(Ok(true), Ok(vec![backup(true), backup(true)])).unwrap());
    assert!(!vacant(Ok(true), Ok(vec![backup(true), backup(false)])).unwrap());
    assert!(!vacant(Ok(false), Err(Error::Busy)).unwrap());
    assert!(matches!(
        vacant(Ok(true), Err(Error::Busy)),
        Err(OpenError::Association(Error::Busy))
    ));
    let folder = BackupFact { is_file: Ok(false), vacant: Ok(true) };
    assert!(!vacant(Ok(true), Ok(vec![folder])).unwrap());
    assert!(matches!(
        vacant(Err(OpenError::NotTicketStore), Ok(Vec::new())),
        Err(OpenError::NotTicketStore)
    ));
}

#[test]
fn release_needs_evidence() {
    let held = manifest(ID, "/old/.git");
    assert!(released(&held, "/old/.git", &Former::Unknown).is_ok());
    assert!(matches!(released(&held, "/new/.git", &Former::Unknown), Err(Error::Ownership)));
    let pointing = Former::Directory(Some(texts(&[ID])));
    assert!(matches!(
        released(&held, "/new/.git", &pointing),
        Err(Error::AssociationMismatch)
    ));
    assert!(released(&held, "/new/.git", &Former::Directory(Some(texts(&[OTHER])))).is_ok());
    assert!(matches!(
        released(&held, "/new/.git", &Former::Directory(None)),
        Err(Error::Ownership)
    ));
    assert!(released(&held, "/new/.git", &Former::Absent(Some(texts(&["src"])))).is_ok());
    assert!(matches!(
        released(&held, "/new/.git", &Former::Absent(Some(texts(&["src", ".git"])))),
        Err(Error::Ownership)
    ));
    assert!(matches!(
        released(&held, "/new/.git", &Former::Absent(None)),
        Err(Error::Ownership)
    ));
}

#[test]
fn candidates_are_ranked_by_their_strongest_fact() {
    let name = |n: u32| format!("{n:032x}");
    let mut past = manifest(&name(3), "/gone/.git");
    past.evidence.previous_git_common_dirs = texts(&["/x/.git", "/repo/.git/"]);
    let mut shared = manifest(&name(2), "/gone/.git");
    shared.evidence.git_remote_urls = texts(&["url-a", "url-b"]);
    let stranger = manifest(&name(1), "/gone/.git");
    let current = manifest(&name(4), "/repo/.git");
    let entries = vec![
        StoreEntry { name: name(1), manifest: Ok(stranger) },
        StoreEntry { name: name(2), manifest: Ok(shared) },
        StoreEntry { name: name(3), manifest: Ok(past) },
        StoreEntry { name: name(4), manifest: Ok(current) },
        StoreEntry { name: ".migrations".to_owned(), manifest: Err(Error::Manifest) },
        StoreEntry { name: "junk".to_owned(), manifest: Err(Error::Manifest) },
    ];
    let pointers = vec![name(9), "not an id".to_owned()];
    let list = discover(entries, &pointers, "/repo/.git", &texts(&["url-b"]));
    let ids: Vec<&str> = list.iter().map(|s| s.id.as_str()).collect();
    let wanted = [name(9), name(4), name(3), name(2), "junk".to_owned()];
    assert_eq!(ids, wanted.iter().map(String::as_str).collect::<Vec<_>>());
    assert!(matches!(list[0].facts.as_slice(), [Fact::Referenced, Fact::MissingStore]));
    assert!(matches!(list[1].facts.as_slice(), [Fact::CurrentPath(path)] if path == "/repo/.git"));
    assert!(matches!(list[2].facts.as_slice(), [Fact::HistoricalPath(path)] if path == "/repo/.git/"));
    assert!(matches!(list[3].facts.as_slice(), [Fact::RemoteUrl(url)] if url == "url-b"));
    assert!(list[4].facts.is_empty());
    assert!(matches!(refuse_recovery(&list), Err(Error::Recovery)));
    let junk = vec![StoreEntry { name: "junk".to_owned(), manifest: Err(Error::Manifest) }];
    assert!(refuse_recovery(&discover(junk, &Vec::new(), "/repo/.git", &Vec::new())).is_ok());
}

#[test]
fn the_first_obstacle_makes_a_candidate_unavailable() {
    let held = Ok(manifest(ID, "/repo/.git"));
    assert!(availability(&held, Ok(()), Ok(()), Ok(())).is_ok());
    assert_eq!(
        availability(&Err(Error::Manifest), Err(Error::Busy), Ok(()), Ok(())),
        Err(Error::Manifest.message())
    );
    assert_eq!(
        availability(&held, Err(Error::Busy), Err(Error::Ownership), Ok(())),
        Err(Error::Busy.message())
    );
    assert_eq!(
        availability(&held, Ok(()), Err(Error::Ownership), Err(OpenError::NotTicketStore)),
        Err(Error::Ownership.message())
    );
    assert_eq!(
        availability(&held, Ok(()), Ok(()), Err(OpenError::NotTicketStore)),
        Err(OpenError::NotTicketStore.message())
    );
}

// Creation.

fn begin() -> Setup {
    let setup = initialize(Some("/data")).unwrap();
    assert_eq!(setup.task, Task::FindCommon);
    let setup = setup.advance(Reply::Common("/repo/.git".to_owned())).unwrap();
    assert_eq!(setup.task, Task::ProbeLegacy);
    let setup = setup.advance(Reply::Found(absent())).unwrap();
    assert_eq!(setup.task, Task::ReadPointer);
    setup
}

#[test]
fn a_fresh_store_is_published_before_its_pointer() {
    let mut setup = begin().advance(Reply::Values(Vec::new())).unwrap();
    let mut seen = vec![setup.task];
    while setup.task != Task::Complete {
        let reply = match setup.task {
            Task::RereadPointer => Reply::Values(Vec::new()),
            Task::ReadRemotes => Reply::Values(texts(&["url"])),
            Task::DrawId => Reply::Drawn(id(ID)),
            Task::Reserve => Reply::Directory(Made::Created),
            _ => Reply::Done,
        };
        setup = setup.advance(reply).unwrap();
        seen.push(setup.task);
    }
    assert_eq!(
        seen,
        vec![
            Task::LockInit,
            Task::RereadPointer,
            Task::ReadRemotes,
            Task::SearchStores,
            Task::DrawId,
            Task::Reserve,
            Task::CreateDatabase,
            Task::Publish,
            Task::InstallPointer,
            Task::Complete,
        ]
    );
    let database = format!("/data/tk/stores/{ID}/tk.db");
    assert_eq!(setup.database(), database);
    let published = setup.manifest().unwrap();
    assert_eq!(published.version, 1);
    assert_eq!(published.store_id.text(), ID);
    assert_eq!(published.association.git_common_dir, "/repo/.git");
    assert!(published.evidence.previous_git_common_dirs.is_empty());
    assert_eq!(published.evidence.git_remote_urls, texts(&["url"]));
    assert!(matches!(setup.initialized(), Initialized::Created(path) if path == database));
}

#[test]
fn an_associated_store_is_validated_and_kept() {
    let setup = begin().advance(Reply::Values(texts(&[ID]))).unwrap();
    assert_eq!(setup.task, Task::ReadManifest);
    let setup = setup
        .advance(Reply::ManifestRead(Probe::Directory, Ok(manifest(ID, "/repo/.git"))))
        .unwrap();
    assert_eq!(setup.task, Task::OpenDatabase);
    let setup = setup.advance(Reply::Done).unwrap();
    assert_eq!(setup.task, Task::Complete);
    assert!(matches!(setup.initialized(), Initialized::Existing(_)));
}

#[test]
fn a_pointer_that_appears_under_the_lock_counts() {
    let setup = begin().advance(Reply::Values(Vec::new())).unwrap();
    let setup = setup.advance(Reply::Done).unwrap();
    assert_eq!(setup.task, Task::RereadPointer);
    let setup = setup.advance(Reply::Values(texts(&[ID]))).unwrap();
    assert_eq!(setup.task, Task::ReadManifest);
    assert!(!setup.fresh);
}

#[test]
fn initialization_stops_at_the_first_refusal() {
    assert!(matches!(initialize(None), Err(OpenError::Association(Error::DataRoot))));
    let setup = initialize(Some("/data")).unwrap();
    let setup = setup.advance(Reply::Common("/repo/.git".to_owned())).unwrap();
    assert!(matches!(
        setup.advance(Reply::Found(Probe::Directory)),
        Err(OpenError::Association(Error::Legacy))
    ));
    assert!(matches!(
        begin().advance(Reply::Values(texts(&["bad"]))),
        Err(OpenError::Association(Error::InvalidPointer))
    ));
    let pointed = begin().advance(Reply::Values(texts(&[ID]))).unwrap();
    assert!(matches!(
        pointed.advance(Reply::ManifestRead(Probe::Directory, Ok(manifest(ID, "/other/.git")))),
        Err(OpenError::Association(Error::AssociationMismatch))
    ));
    let waiting = begin().advance(Reply::Values(Vec::new())).unwrap();
    assert!(matches!(
        waiting.advance(Reply::Failed(OpenError::Association(Error::Busy))),
        Err(OpenError::Association(Error::Busy))
    ));
}

#[test]
fn a_collision_never_opens_what_is_there() {
    let mut setup = begin().advance(Reply::Values(Vec::new())).unwrap();
    while setup.task != Task::Reserve {
        let reply = match setup.task {
            Task::RereadPointer | Task::ReadRemotes => Reply::Values(Vec::new()),
            Task::DrawId => Reply::Drawn(id(ID)),
            _ => Reply::Done,
        };
        setup = setup.advance(reply).unwrap();
    }
    assert!(matches!(
        setup.advance(Reply::Directory(Made::AlreadyExists)),
        Err(OpenError::Association(Error::Collision))
    ));
}

#[test]
fn the_prefix_comes_from_the_top_directory() {
    assert_eq!(seed_display_prefix("/home/u/Widget"), tk_store::display_prefix::derive("Widget"));
    assert_eq!(seed_display_prefix("/"), tk_store::display_prefix::derive(""));
    assert!(require_write_ahead("WAL").is_ok());
    assert!(require_write_ahead("wal").is_ok());
    assert_eq!(
        require_write_ahead("delete").unwrap_err().message(),
        "journal_mode could not be set to wal (current: delete)"
    );
}

// Relocation.

fn progress(store: &str) -> Progress {
    Progress {
        version: 1,
        store_id: id(store),
        token: id(OTHER),
        common: "/repo/.git".to_owned(),
        root: "/data/tk/stores".to_owned(),
    }
}

fn hash(name: &str, hash: &str) -> FileHash {
    FileHash { name: name.to_owned(), hash: hash.to_owned() }
}

fn receipt(store: &str, files: Vec<FileHash>) -> Receipt {
    Receipt { progress: progress(store), files }
}

#[test]
fn a_fingerprint_is_the_digest_in_hexadecimal() {
    assert_eq!(
        fingerprint(b"abc"),
        "ba7816bf8f01cfea414140de5dae2223b00361a396177a9cb410ff61f20015ad"
    );
    assert_eq!(
        fingerprint(b""),
        "e3b0c44298fc1c149afbf4c8996fb92427ae41e4649b934ca495991b7852b855"
    );
}

#[test]
fn only_known_files_belong_to_a_legacy_store() {
    for name in ["tk.db", "remote.lock", "tk.db-journal", "backups/a.db"] {
        assert!(allowed(name), "{name}");
    }
    for name in ["", "notes", "tk.db-wal", "backups", "backups/a/b", "/backups/a", "backups/.."] {
        assert!(!allowed(name), "{name}");
    }
}

#[test]
fn an_inventory_lists_every_file_with_its_fingerprint() {
    let entries = vec![
        SourceEntry {
            name: "backups".to_owned(),
            content: Content::Directory(Ok(vec![BackupEntry {
                name: "a.db".to_owned(),
                content: BackupContent::File(Ok(b"abc".to_vec())),
            }])),
        },
        SourceEntry { name: "tk.db".to_owned(), content: Content::File(Ok(Vec::new())) },
    ];
    let files = inventory("/repo/.git/tk", &entries, false, false).unwrap();
    let listed: Vec<(&str, String)> =
        files.iter().map(|f| (f.name.as_str(), f.hash.clone())).collect();
    assert_eq!(
        listed,
        vec![("backups/a.db", fingerprint(b"abc")), ("tk.db", fingerprint(b""))]
    );
    assert_eq!(removals(&files), texts(&["backups/a.db"]));
    assert!(matches!(
        inventory("/repo/.git/tk", &entries, true, false),
        Err(Error::Migration(text)) if text == "legacy database path changed while locked"
    ));
}

#[test]
fn an_inventory_refuses_what_does_not_belong() {
    let one = |name: &str, content: Content| {
        let entries = vec![SourceEntry { name: name.to_owned(), content }];
        match inventory("/s/tk", &entries, false, false) {
            Err(Error::Migration(text)) => text,
            other => panic!("{other:?}"),
        }
    };
    assert_eq!(one("notes", Content::File(Ok(Vec::new()))), "unexpected legacy entry: /s/tk/notes");
    assert_eq!(one("tk.db", Content::Other), "expected a regular file: /s/tk/tk.db");
    assert_eq!(
        one("remote.lock", Content::File(Ok(Vec::new()))),
        "legacy Remote lock appeared during migration"
    );
    assert_eq!(one("backups", Content::Other), "unexpected legacy entry: /s/tk/backups");
}

#[test]
fn a_legacy_database_is_held_under_its_one_name() {
    let held = FileIdentity { device: 1, inode: 2, links: 1 };
    assert!(!has_moved(held, held));
    assert!(has_moved(held, FileIdentity { device: 3, ..held }));
    assert!(has_moved(held, FileIdentity { inode: 3, ..held }));
    assert!(has_moved(held, FileIdentity { links: 2, ..held }));
    assert!(refuse_links(1).is_ok());
    assert!(matches!(
        refuse_links(2),
        Err(Error::Migration(text))
            if text == "legacy database has hard links; make an independent copy before migration"
    ));
    assert!(require_rollback_journal("delete").is_ok());
    assert!(matches!(
        require_rollback_journal("wal"),
        Err(Error::Migration(text)) if text == "legacy database could not leave WAL mode"
    ));
}

#[test]
fn files_are_compared_by_name_and_fingerprint() {
    let listed = vec![hash("a", "1"), hash("b", "2")];
    assert!(are_same(&listed, &vec![hash("a", "1"), hash("b", "2")]));
    assert!(!are_same(&listed, &vec![hash("a", "1")]));
    assert!(!are_same(&listed, &vec![hash("a", "1"), hash("b", "3")]));
    assert!(are_listed(&vec![hash("b", "2")], &listed));
    assert!(!are_listed(&vec![hash("b", "3")], &listed));
    assert!(!are_listed(&vec![hash("c", "2")], &listed));
}

#[test]
fn a_record_fits_its_locations() {
    let read = |common: &str, root: &str| read_progress(Ok(progress(ID)), common, root);
    assert!(read("/repo/.git", "/data/tk/stores").is_ok());
    assert!(matches!(read("/other/.git", "/data/tk/stores"), Err(Error::Migration(_))));
    assert!(matches!(read("/repo/.git", "/else"), Err(Error::Migration(_))));
    let mut newer = progress(ID);
    newer.version = 2;
    assert!(read_progress(Ok(newer), "/repo/.git", "/data/tk/stores").is_err());
    assert_eq!(stage(&progress(ID)), format!("/data/tk/stores/.migrations/{ID}"));
    assert!(regular(&Probe::File, "/x").is_ok());
    assert!(matches!(
        regular(&Probe::Directory, "/x"),
        Err(Error::Migration(text)) if text == "expected a regular file: /x"
    ));
}

#[test]
fn a_receipt_belongs_to_its_migration() {
    let read = |probe: Probe, receipt: Receipt| read_receipt(&probe, Ok(receipt), &progress(ID));
    assert!(read(Probe::Directory, receipt(ID, vec![hash("tk.db", "1")])).is_ok());
    assert!(matches!(
        read(Probe::Directory, receipt(OTHER, Vec::new())),
        Err(Error::Migration(text)) if text == "destination does not belong to this migration"
    ));
    assert!(read(Probe::Directory, receipt(ID, vec![hash("foreign", "1")])).is_err());
    assert!(matches!(
        read(Probe::File, receipt(ID, Vec::new())),
        Err(Error::Migration(text)) if text == "migration destination is not a directory"
    ));
}

#[test]
fn the_backups_are_copied_as_they_are() {
    let files = vec![
        hash("backups/a.db", "1"),
        hash("remote.lock", "2"),
        hash("tk.db", "3"),
        hash("backups/b.db", "4"),
        hash("/backups/c.db", "5"),
        hash("backupsd/e.db", "6"),
    ];
    assert_eq!(backups_of(&files), texts(&["backups/a.db", "backups/b.db"]));
    assert!(backups_of(&Vec::new()).is_empty());
}

#[test]
fn a_pending_migration_guards_its_stores() {
    assert!(!pending(&absent(), &absent()).unwrap());
    assert!(pending(&Probe::Directory, &absent()).unwrap());
    assert!(pending(&absent(), &Probe::File).unwrap());
    assert!(refuse_pending(&absent()).is_ok());
    assert!(matches!(refuse_pending(&Probe::File), Err(Error::Migration(_))));
}

#[test]
fn cleanup_opens_a_store_with_both_receipts_only() {
    let traces = |source: Probe, read: Result<Progress, Error>| Traces {
        source,
        marker: Probe::File,
        progress: read,
        directory: Probe::Directory,
        receipt: Ok(receipt(ID, Vec::new())),
    };
    let opened = |traces: Traces, store: &str| {
        access(&id(store), "/repo/.git", "/data/tk/stores", traces)
    };
    assert!(opened(traces(Probe::Directory, Ok(progress(ID))), ID).is_ok());
    assert!(matches!(
        opened(traces(Probe::Directory, Ok(progress(ID))), OTHER),
        Err(Error::Legacy)
    ));
    assert!(matches!(
        opened(traces(absent(), Err(Error::Migration("gone".to_owned()))), ID),
        Err(Error::Migration(_))
    ));
    let settled = Traces {
        source: absent(),
        marker: absent(),
        progress: Err(Error::Legacy),
        directory: Probe::Directory,
        receipt: Err(Error::Legacy),
    };
    assert!(opened(settled, ID).is_ok());
}

fn legacy_files() -> Vec<FileHash> {
    vec![hash("backups/a.db", "1"), hash("tk.db", "2")]
}

/// What an undisturbed world answers.
fn undisturbed(step: Step) -> cutover::Reply {
    match step {
        Step::ReadPointers => cutover::Reply::Values(Vec::new()),
        Step::ProbeRecord | Step::ProbeTaken | Step::ProbeStore => cutover::Reply::Present(false),
        Step::ProbeDatabase => cutover::Reply::Present(true),
        Step::DrawIds => {
            cutover::Reply::Drawn(id(ID), id(OTHER), "/data/tk/stores".to_owned())
        }
        Step::TakeInventory | Step::Recheck | Step::TakeRemains => {
            cutover::Reply::Files(legacy_files())
        }
        Step::ProbeStaged => cutover::Reply::Leftover(Leftover::Missing),
        Step::CheckStore | Step::CheckPlaced | Step::CheckPointed => {
            cutover::Reply::ManifestRead(Probe::Directory, Ok(manifest(ID, "/repo/.git")))
        }
        Step::ProbeSource => cutover::Reply::Found(Probe::Directory),
        _ => cutover::Reply::Done,
    }
}

fn run_to(mut at: Cutover, goal: Step) -> Cutover {
    while at.step != goal {
        let reply = undisturbed(at.step);
        at = at.advance(reply).unwrap();
    }
    at
}

#[test]
fn a_cutover_runs_to_its_end() {
    let mut at = migrate("/data/tk/stores", "/repo/.git");
    let mut boundaries = Vec::new();
    let mut pointed_at = None;
    let mut removed_at = None;
    let mut count = 0;
    while at.step != Step::Complete {
        if let Step::Observe(boundary) = at.step {
            boundaries.push(boundary);
        }
        if at.step == Step::InstallPointer {
            pointed_at = Some(count);
        }
        if at.step == Step::RemoveFile {
            assert_eq!(at.queue, texts(&["backups/a.db"]));
            removed_at = Some(count);
        }
        let reply = undisturbed(at.step);
        at = at.advance(reply).unwrap();
        count += 1;
    }
    assert_eq!(
        boundaries,
        vec![
            Boundary::Recorded,
            Boundary::Reserved,
            Boundary::Staged,
            Boundary::Validated,
            Boundary::Published,
            Boundary::Pointed,
            Boundary::Cleanup,
            Boundary::CleanedFile,
            Boundary::Removed,
            Boundary::Finished,
        ]
    );
    assert!(pointed_at.unwrap() < removed_at.unwrap());
    assert_eq!(at.database().unwrap(), format!("/data/tk/stores/{ID}/tk.db"));
    let published = at.manifest(texts(&["url"])).unwrap();
    assert_eq!(published.store_id.text(), ID);
    assert_eq!(published.evidence.git_remote_urls, texts(&["url"]));
}

#[test]
fn a_cutover_resumes_after_the_pointer() {
    let at = run_to(migrate("/data/tk/stores", "/repo/.git"), Step::ReadPointers);
    let at = at.advance(cutover::Reply::Values(texts(&[ID]))).unwrap();
    let at = at.advance(cutover::Reply::Present(true)).unwrap();
    assert_eq!(at.step, Step::ReadProgress);
    let at = at
        .advance(cutover::Reply::Progressed(Ok(progress(ID)), "/data/tk/stores".to_owned()))
        .unwrap();
    let at = at.advance(cutover::Reply::Done).unwrap();
    assert_eq!(at.step, Step::LockStore);
    assert!(at.resumed);
    let at = run_to(at, Step::ProbeLeftovers);
    let at = at.advance(cutover::Reply::Present(true)).unwrap();
    assert_eq!(at.step, Step::ReadReceipt);
    let at = at
        .advance(cutover::Reply::ReceiptRead(Probe::Directory, Ok(receipt(ID, legacy_files()))))
        .unwrap();
    assert_eq!(at.step, Step::FlushPointer);
    let at = run_to(at, Step::Complete);
    assert!(at.pointed);
}

#[test]
fn a_cutover_without_leftovers_only_finishes() {
    let at = run_to(migrate("/data/tk/stores", "/repo/.git"), Step::ReadPointers);
    let at = at.advance(cutover::Reply::Values(texts(&[ID]))).unwrap();
    let at = at.advance(cutover::Reply::Present(true)).unwrap();
    let at = at
        .advance(cutover::Reply::Progressed(Ok(progress(ID)), "/data/tk/stores".to_owned()))
        .unwrap();
    let at = run_to(at, Step::ProbeLeftovers);
    let at = at.advance(cutover::Reply::Present(false)).unwrap();
    assert_eq!(at.step, Step::RemoveMarker);
    run_to(at, Step::Complete);
}

#[test]
fn earlier_attempts_are_cleared_or_refused() {
    let staged = || run_to(migrate("/data/tk/stores", "/repo/.git"), Step::ProbeStaged);
    let torn = Leftover::Directory {
        receipt: false,
        entries: vec![("migration.pending".to_owned(), true)],
    };
    assert_eq!(staged().advance(cutover::Reply::Leftover(torn)).unwrap().step, Step::ClearStaged);
    let whole = Leftover::Directory { receipt: true, entries: Vec::new() };
    let at = staged().advance(cutover::Reply::Leftover(whole)).unwrap();
    assert_eq!(at.step, Step::ReadStagedReceipt);
    assert!(matches!(
        at.advance(cutover::Reply::ReceiptRead(Probe::Directory, Ok(receipt(OTHER, Vec::new())))),
        Err(Error::Migration(_))
    ));
    let at = run_to(staged(), Step::ProbeStore);
    let at = at.advance(cutover::Reply::Present(true)).unwrap();
    let at = at
        .advance(cutover::Reply::ReceiptRead(Probe::Directory, Ok(receipt(ID, Vec::new()))))
        .unwrap();
    assert_eq!(at.step, Step::TryStoreLock);
    assert_eq!(run_to(at, Step::CreateStage).step, Step::CreateStage);
}

#[test]
fn a_cutover_refuses_what_it_cannot_trust() {
    let start = || migrate("/data/tk/stores", "/repo/.git");
    let at = run_to(start(), Step::ReadPointers);
    let at = at.advance(cutover::Reply::Values(texts(&[ID]))).unwrap();
    assert!(matches!(at.advance(cutover::Reply::Present(false)), Err(Error::Legacy)));

    let at = run_to(start(), Step::ReadPointers);
    let at = at.advance(cutover::Reply::Values(texts(&[OTHER]))).unwrap();
    let at = at.advance(cutover::Reply::Present(true)).unwrap();
    let at = at
        .advance(cutover::Reply::Progressed(Ok(progress(ID)), "/data/tk/stores".to_owned()))
        .unwrap();
    assert!(matches!(
        at.advance(cutover::Reply::Done),
        Err(Error::Migration(text)) if text == "Git pointer disagrees with migration progress"
    ));

    let at = run_to(start(), Step::ProbeTaken);
    assert!(matches!(at.advance(cutover::Reply::Present(true)), Err(Error::Collision)));

    let at = run_to(start(), Step::Recheck);
    assert!(matches!(
        at.advance(cutover::Reply::Files(vec![hash("tk.db", "3")])),
        Err(Error::Migration(text)) if text == "legacy files changed during staging"
    ));

    let at = run_to(start(), Step::TakeRemains);
    assert!(matches!(
        at.advance(cutover::Reply::Files(vec![hash("tk.db", "3")])),
        Err(Error::Migration(text))
            if text == "legacy files changed after cutover; preserve both Stores and restore manually"
    ));

    let at = run_to(start(), Step::ProbeSource);
    assert!(matches!(
        at.advance(cutover::Reply::Found(Probe::File)),
        Err(Error::Migration(text)) if text == "legacy directory was replaced; cleanup refused"
    ));

    let at = run_to(start(), Step::ProbeDatabase);
    let at = at.advance(cutover::Reply::Present(false)).unwrap();
    assert!(matches!(
        at.advance(cutover::Reply::Values(texts(&["stray"]))),
        Err(Error::Migration(text)) if text == "legacy database is missing but other files remain"
    ));

    let at = run_to(start(), Step::Snapshot);
    assert!(matches!(at.advance(cutover::Reply::Failed(Error::Busy)), Err(Error::Busy)));
}

/// A Store being put together, or put in its place.
#[derive(Default)]
struct TestSite {
    receipt: bool,
    torn: bool,
    copied: bool,
    manifest: bool,
}

/// A disk that nobody but migrations touches.
struct TestDisk {
    legacy: Option<Vec<&'static str>>,
    record: Option<String>,
    pointers: Vec<String>,
    staged: Option<TestSite>,
    placed: Option<TestSite>,
}

impl TestDisk {
    fn new() -> Self {
        TestDisk {
            legacy: Some(vec!["backups/a.db", "backups/b.db", "remote.lock", "tk.db"]),
            record: None,
            pointers: Vec::new(),
            staged: None,
            placed: None,
        }
    }

    fn files(&self) -> Vec<FileHash> {
        self.legacy.as_ref().unwrap().iter().map(|name| hash(name, name)).collect()
    }

    fn receipt_of(&self, site: &Option<TestSite>) -> cutover::Reply {
        assert!(site.as_ref().unwrap().receipt);
        let files = TestDisk::new().files();
        let read = Receipt { progress: progress(self.record.as_ref().unwrap()), files };
        cutover::Reply::ReceiptRead(Probe::Directory, Ok(read))
    }

    /// Does the work of a step; a new migration draws `drawn`.
    fn work(&mut self, at: &Cutover, drawn: &str) -> cutover::Reply {
        let is_left = |legacy: &Option<Vec<&str>>, name: &str| {
            legacy.as_ref().is_some_and(|files| files.contains(&name))
        };
        match at.step {
            Step::ReadPointers => return cutover::Reply::Values(self.pointers.clone()),
            Step::ProbeRecord => return cutover::Reply::Present(self.record.is_some()),
            Step::ReadProgress => {
                let read = progress(self.record.as_ref().unwrap());
                return cutover::Reply::Progressed(Ok(read), "/data/tk/stores".to_owned());
            }
            Step::DrawIds => {
                return cutover::Reply::Drawn(id(drawn), id(OTHER), "/data/tk/stores".to_owned());
            }
            Step::ProbeTaken => {
                return cutover::Reply::Present(self.staged.is_some() || self.placed.is_some());
            }
            Step::WriteRecord => {
                self.record = Some(at.progress.as_ref().unwrap().store_id.text().to_owned());
            }
            Step::CheckStore | Step::CheckPlaced | Step::CheckPointed => {
                assert!(self.placed.as_ref().unwrap().manifest);
                let read = manifest(self.record.as_ref().unwrap(), "/repo/.git");
                return cutover::Reply::ManifestRead(Probe::Directory, Ok(read));
            }
            Step::ProbeLeftovers => {
                let marked = self.placed.as_ref().unwrap().receipt;
                return cutover::Reply::Present(self.legacy.is_some() || marked);
            }
            Step::ReadReceipt | Step::ReadStoreReceipt => return self.receipt_of(&self.placed),
            Step::ReadStagedReceipt => return self.receipt_of(&self.staged),
            Step::TakeInventory | Step::Recheck | Step::TakeRemains => {
                return cutover::Reply::Files(self.files());
            }
            Step::ProbeStaged => {
                return cutover::Reply::Leftover(match &self.staged {
                    None => Leftover::Missing,
                    Some(site) => Leftover::Directory {
                        receipt: site.receipt,
                        entries: if site.torn {
                            vec![("migration.pending".to_owned(), true)]
                        } else {
                            Vec::new()
                        },
                    },
                });
            }
            Step::ClearStaged | Step::RemoveStaged => assert!(self.staged.take().is_some()),
            Step::ProbeStore => return cutover::Reply::Present(self.placed.is_some()),
            Step::RemoveStore => assert!(self.placed.take().is_some()),
            Step::CreateStage => {
                assert!(self.staged.is_none());
                self.staged = Some(TestSite::default());
            }
            Step::WriteReceipt => {
                assert_eq!(at.files.len(), 4);
                self.staged.as_mut().unwrap().receipt = true;
            }
            Step::Snapshot => self.staged.as_mut().unwrap().copied = true,
            Step::Publish => self.staged.as_mut().unwrap().manifest = true,
            Step::MoveIntoPlace => {
                assert!(self.placed.is_none());
                self.placed = self.staged.take();
            }
            Step::InstallPointer => {
                self.pointers = vec![at.progress.as_ref().unwrap().store_id.text().to_owned()];
            }
            Step::ProbeSource => {
                return cutover::Reply::Found(if self.legacy.is_some() {
                    Probe::Directory
                } else {
                    absent()
                });
            }
            Step::ProbeDatabase => return cutover::Reply::Present(is_left(&self.legacy, "tk.db")),
            Step::ListRemains => {
                return cutover::Reply::Values(texts(self.legacy.as_ref().unwrap()));
            }
            Step::RemoveFile => {
                assert!(is_left(&self.legacy, &at.queue[0]));
                self.legacy.as_mut().unwrap().retain(|name| *name != at.queue[0]);
            }
            Step::RemoveDatabase => self.legacy.as_mut().unwrap().retain(|name| *name != "tk.db"),
            Step::RemoveSource => assert_eq!(self.legacy.take(), Some(Vec::new())),
            Step::RemoveMarker => self.placed.as_mut().unwrap().receipt = false,
            Step::RemoveRecord => assert!(self.record.take().is_some()),
            _ => {}
        }
        cutover::Reply::Done
    }

    /// A run of at most `limit` steps.
    fn run(&mut self, limit: usize, drawn: &str) -> Cutover {
        let mut at = migrate("/data/tk/stores", "/repo/.git");
        for _ in 0..limit {
            if at.step == Step::Complete {
                break;
            }
            let reply = self.work(&at, drawn);
            at = at.advance(reply).unwrap();
        }
        at
    }
}

#[test]
fn a_second_run_finishes_the_first_wherever_it_stopped() {
    for torn in [false, true] {
        let mut stopped = 0;
        loop {
            let mut disk = TestDisk::new();
            let at = disk.run(stopped, ID);
            if at.step == Step::Complete {
                break;
            }
            if torn && at.step == Step::WriteReceipt {
                disk.staged.as_mut().unwrap().torn = true;
            }
            // Nothing of the legacy Store is gone before the pointer names the copy.
            if disk.pointers.is_empty() {
                assert_eq!(disk.legacy, TestDisk::new().legacy);
            }
            if let Step::Observe(_) = at.step {
                assert!(disk.record.is_some());
            }
            let store = disk.record.clone().unwrap_or(OTHER.to_owned());
            assert_eq!(store == ID, disk.record.is_some());
            let again = disk.run(1000, OTHER);
            assert_eq!(again.step, Step::Complete);
            assert_eq!(again.database().unwrap(), format!("/data/tk/stores/{store}/tk.db"));
            assert_eq!(disk.pointers, vec![store]);
            assert_eq!(disk.legacy, None);
            assert_eq!(disk.record, None);
            assert!(disk.staged.is_none());
            let placed = disk.placed.unwrap();
            assert!(placed.copied && placed.manifest && !placed.receipt);
            stopped += 1;
        }
        assert!(stopped > 40);
    }
}
