//! Repository Store schema migrations: which of them run, in what order, and
//! what the store records about them.
//!
//! The schema scripts themselves are run by the caller, each in a transaction
//! of its own; what came of a script is handed in, and the bookkeeping here
//! says what follows from it.

use vstd::prelude::*;

use crate::backup::{BackupError, BackupFault};
use crate::text::join3;

verus! {

/// Written to the database header so that an existing file can be told to be a
/// Repository Store. Spelled `TKDB` in big-endian ASCII.
pub const APPLICATION_ID: i32 = 0x544B_4442;

/// Highest schema version that can be applied.
pub const MAX_KNOWN_VERSION: u32 = 16;

/// Whether a migration needs foreign-key enforcement disabled while it runs. A
/// table rebuild drops the table, which would trip the child foreign keys.
/// Every other migration runs with enforcement on.
#[derive(Debug, Clone, Copy, PartialEq, Eq, Structural)]
pub enum ForeignKeys {
    On,
    Off,
}

/// One schema migration in the ordered list.
#[derive(Debug, Clone, Copy)]
pub struct Migration {
    /// Monotonic schema version recorded in the store.
    pub version: u32,
    /// The script executed inside the migration transaction.
    pub script: &'static str,
    /// Foreign-key enforcement mode for this migration's transaction.
    pub foreign_keys: ForeignKeys,
}

/// Whether the migration to this version rebuilds a table.
pub open spec fn rebuilds(version: int) -> bool {
    version == 5 || version == 6 || 8 <= version <= 11
}

/// The foreign-key enforcement mode of the migration to this version.
pub open spec fn mode_of(version: int) -> ForeignKeys {
    if rebuilds(version) {
        ForeignKeys::Off
    } else {
        ForeignKeys::On
    }
}

/// The script of the migration to this version.
pub open spec fn script_of(version: int) -> Seq<char> {
    if version == 1 {
        "001_repository_store.sql"@
    } else if version == 2 {
        "002_items_no_escape_from_done.sql"@
    } else if version == 3 {
        "003_closing_reason.sql"@
    } else if version == 4 {
        "004_selection_state.sql"@
    } else if version == 5 {
        "005_relax_priority_for_triage.sql"@
    } else if version == 6 {
        "006_require_accepted_for_active.sql"@
    } else if version == 7 {
        "007_promotion_operation.sql"@
    } else if version == 8 {
        "008_mutation_applying.sql"@
    } else if version == 9 {
        "009_mutation_cancelled.sql"@
    } else if version == 10 {
        "010_mutation_abandoned.sql"@
    } else if version == 11 {
        "011_split_work_state.sql"@
    } else if version == 12 {
        "012_drop_dead_next_index.sql"@
    } else if version == 13 {
        "013_former_backend_identities.sql"@
    } else if version == 14 {
        "014_binding_display_provenance.sql"@
    } else if version == 15 {
        "015_readopt_reopens_a_former_identity.sql"@
    } else {
        "016_sync_skip_relinquishes_a_close.sql"@
    }
}

/// The migration to a version.
pub fn migration(version: u32) -> (r: Migration)
    requires
        1 <= version <= MAX_KNOWN_VERSION,
    ensures
        r.version == version,
        r.script@ == script_of(version as int),
        r.foreign_keys == mode_of(version as int),
{
    let script = if version == 1 {
        "001_repository_store.sql"
    } else if version == 2 {
        "002_items_no_escape_from_done.sql"
    } else if version == 3 {
        "003_closing_reason.sql"
    } else if version == 4 {
        "004_selection_state.sql"
    } else if version == 5 {
        "005_relax_priority_for_triage.sql"
    } else if version == 6 {
        "006_require_accepted_for_active.sql"
    } else if version == 7 {
        "007_promotion_operation.sql"
    } else if version == 8 {
        "008_mutation_applying.sql"
    } else if version == 9 {
        "009_mutation_cancelled.sql"
    } else if version == 10 {
        "010_mutation_abandoned.sql"
    } else if version == 11 {
        "011_split_work_state.sql"
    } else if version == 12 {
        "012_drop_dead_next_index.sql"
    } else if version == 13 {
        "013_former_backend_identities.sql"
    } else if version == 14 {
        "014_binding_display_provenance.sql"
    } else if version == 15 {
        "015_readopt_reopens_a_former_identity.sql"
    } else {
        "016_sync_skip_relinquishes_a_close.sql"
    };
    let foreign_keys = if version == 5 || version == 6 || (8 <= version && version <= 11) {
        ForeignKeys::Off
    } else {
        ForeignKeys::On
    };
    Migration { version, script, foreign_keys }
}

/// One recorded migration.
#[derive(Debug)]
pub struct Applied {
    pub version: i64,
    pub applied_at: String,
}

/// What a store records about its schema.
#[derive(Debug)]
pub struct Schema {
    pub applied: Vec<Applied>,
    pub application_id: i32,
    pub user_version: i64,
}

/// What a store records about its schema: the versions with the times they were
/// applied, in the order recorded, and the two header fields.
#[verifier::ext_equal]
pub struct SchemaView {
    pub applied: Seq<(int, Seq<char>)>,
    pub application_id: int,
    pub user_version: int,
}

impl View for Schema {
    type V = SchemaView;

    open spec fn view(&self) -> SchemaView {
        SchemaView {
            applied: self.applied@.map_values(|a: Applied| (a.version as int, a.applied_at@)),
            application_id: self.application_id as int,
            user_version: self.user_version as int,
        }
    }
}

impl SchemaView {
    /// Whether no recorded version is above `version`, and one is `version`.
    pub open spec fn highest_is(self, version: int) -> bool {
        &&& forall|i: int| 0 <= i < self.applied.len() ==> (#[trigger] self.applied[i]).0 <= version
        &&& exists|i: int| 0 <= i < self.applied.len() && (#[trigger] self.applied[i]).0 == version
    }

    /// The highest recorded version; zero where none is.
    pub open spec fn version(self) -> int
        decreases self.applied.len(),
    {
        if self.applied.len() == 0 {
            0
        } else if self.applied.len() == 1 {
            self.applied[0].0
        } else {
            let before = SchemaView { applied: self.applied.drop_last(), ..self }.version();
            if self.applied.last().0 > before {
                self.applied.last().0
            } else {
                before
            }
        }
    }

    /// The record with one migration more.
    pub open spec fn with(self, version: int, now: Seq<char>) -> SchemaView {
        SchemaView {
            applied: self.applied.push((version, now)),
            application_id: APPLICATION_ID as int,
            user_version: version,
        }
    }
}

/// The version of a store is the highest that it records.
pub proof fn law_the_version_is_the_highest_recorded(v: SchemaView)
    requires
        v.applied.len() > 0,
    ensures
        v.highest_is(v.version()),
    decreases v.applied.len(),
{
    let last = v.applied.len() - 1;
    if v.applied.len() == 1 {
        assert(v.applied[0].0 == v.version());
    } else {
        let before = SchemaView { applied: v.applied.drop_last(), ..v };
        law_the_version_is_the_highest_recorded(before);
        let at = choose|i: int| 0 <= i < before.applied.len() && (#[trigger] before.applied[i]).0
            == before.version();
        assert(v.applied[at].0 == before.version());
        assert(v.applied[last].0 == v.applied.last().0);
        assert forall|i: int| 0 <= i < v.applied.len() implies (#[trigger] v.applied[i]).0
            <= v.version() by {
            if i < last {
                assert(before.applied[i] == v.applied[i]);
            }
        }
    }
}

/// The version of a store is the last one recorded, where none before it is
/// higher.
pub proof fn lemma_version_of_push(v: SchemaView, version: int, now: Seq<char>)
    requires
        v.applied.len() > 0 ==> v.version() < version,
    ensures
        v.with(version, now).version() == version,
{
    let more = v.with(version, now);
    assert(more.applied.drop_last() =~= v.applied);
    if v.applied.len() > 0 {
        lemma_version_header(
            SchemaView { applied: more.applied.drop_last(), ..more },
            v,
        );
    }
}

/// The version depends on the recorded migrations alone.
pub proof fn lemma_version_header(a: SchemaView, b: SchemaView)
    requires
        a.applied == b.applied,
    ensures
        a.version() == b.version(),
    decreases a.applied.len(),
{
    if a.applied.len() > 1 {
        lemma_version_header(
            SchemaView { applied: a.applied.drop_last(), ..a },
            SchemaView { applied: b.applied.drop_last(), ..b },
        );
    }
}

/// Why migrations were not applied.
#[derive(Debug)]
pub enum ApplyError {
    /// The store records a higher schema version than is known.
    StoreFromFutureVersion,
    /// A table rebuild left a dangling reference in the named table; its
    /// transaction rolls back.
    ForeignKeyCheck(String),
    /// The Store Backup that must precede a migration could not be written.
    Backup(BackupError),
    /// What the database reported from the migration transaction.
    Sqlite(String),
}

/// Why migrations were not applied, texts as characters.
pub enum ApplyFault {
    StoreFromFutureVersion,
    ForeignKeyCheck(Seq<char>),
    Backup(BackupFault),
    Sqlite(Seq<char>),
}

impl View for ApplyError {
    type V = ApplyFault;

    open spec fn view(&self) -> ApplyFault {
        match *self {
            ApplyError::StoreFromFutureVersion => ApplyFault::StoreFromFutureVersion,
            ApplyError::ForeignKeyCheck(table) => ApplyFault::ForeignKeyCheck(table@),
            ApplyError::Backup(error) => ApplyFault::Backup(error@),
            ApplyError::Sqlite(text) => ApplyFault::Sqlite(text@),
        }
    }
}

impl ApplyFault {
    /// What the user reads.
    pub open spec fn message(self) -> Seq<char> {
        match self {
            ApplyFault::StoreFromFutureVersion => "store was created by a newer tk version"@,
            ApplyFault::ForeignKeyCheck(table) =>
                "migration left a dangling foreign key in table `"@ + table + "`"@,
            ApplyFault::Backup(_) => "failed to back up the Repository Store before migrating"@,
            ApplyFault::Sqlite(text) => text,
        }
    }
}

impl ApplyError {
    /// What the user reads.
    pub fn message(&self) -> (r: String)
        ensures
            r@ == self@.message(),
    {
        match self {
            ApplyError::StoreFromFutureVersion => "store was created by a newer tk version".to_owned(),
            ApplyError::ForeignKeyCheck(table) => join3(
                "migration left a dangling foreign key in table `",
                table.as_str(),
                "`",
            ),
            ApplyError::Backup(_) =>
                "failed to back up the Repository Store before migrating".to_owned(),
            ApplyError::Sqlite(text) => text.clone(),
        }
    }
}

/// What came of running one migration's script: whether it ran, and the first
/// table that a foreign-key check then names.
#[derive(Debug)]
pub struct Outcome {
    pub script: Result<(), String>,
    pub dangling: Option<String>,
}

/// What came of running one migration's script.
pub struct OutcomeView {
    pub script: Result<(), Seq<char>>,
    pub dangling: Option<Seq<char>>,
}

impl View for Outcome {
    type V = OutcomeView;

    open spec fn view(&self) -> OutcomeView {
        OutcomeView {
            script: match self.script {
                Ok(()) => Ok(()),
                Err(text) => Err(text@),
            },
            dangling: match self.dangling {
                Some(table) => Some(table@),
                None => None,
            },
        }
    }
}

impl Schema {
    /// A database without a schema.
    pub fn new() -> (r: Schema)
        ensures
            r@.applied.len() == 0,
            r@.application_id == 0,
            r@.user_version == 0,
    {
        Schema { applied: Vec::new(), application_id: 0, user_version: 0 }
    }

    /// The highest applied schema version, or zero when none is recorded.
    pub fn current_version(&self) -> (r: i64)
        ensures
            r == self@.version(),
    {
        let mut highest: i64 = 0;
        let mut i: usize = 0;
        let ghost all = self@.applied;
        while i < self.applied.len()
            invariant
                0 <= i <= self.applied@.len(),
                all == self@.applied,
                all.len() == self.applied@.len(),
                highest == (SchemaView { applied: all.take(i as int), ..self@ }).version(),
            decreases self.applied@.len() - i,
        {
            let version: i64 = self.applied[i].version;
            proof {
                assert(all.take(i + 1).drop_last() =~= all.take(i as int));
                assert(all.take(i + 1).last() == all[i as int]);
                assert(all[i as int].0 == version);
                assert(all.take(i + 1)[0] == all[0]);
            }
            if i == 0 || version > highest {
                highest = version;
            }
            i = i + 1;
        }
        proof {
            assert(all.take(all.len() as int) =~= all);
        }
        highest
    }

    /// Whether a version is still to be applied.
    pub fn lacks(&self, version: u32) -> (r: bool)
        ensures
            r == (version > self@.version()),
    {
        version as i64 > self.current_version()
    }
}

/// What one migration makes of a store: nothing where the version is already
/// recorded, else one record more, unless the script failed or a rebuild left a
/// dangling reference.
pub open spec fn applied_one(
    v: SchemaView,
    version: int,
    foreign_keys: ForeignKeys,
    now: Seq<char>,
    outcome: OutcomeView,
) -> Result<SchemaView, ApplyFault> {
    if version <= v.version() {
        Ok(v)
    } else {
        match outcome.script {
            Err(text) => Err(ApplyFault::Sqlite(text)),
            Ok(()) => if foreign_keys == ForeignKeys::Off && outcome.dangling is Some {
                Err(ApplyFault::ForeignKeyCheck(outcome.dangling->0))
            } else {
                Ok(v.with(version, now))
            },
        }
    }
}

/// Apply one migration, re-reading the version: another migrator may have
/// applied it meanwhile. A refusal leaves the record as it was.
pub fn apply_one(schema: &mut Schema, mig: &Migration, now_iso: &str, outcome: &Outcome) -> (r: Result<
    (),
    ApplyError,
>)
    ensures
        match r {
            Ok(()) => applied_one(
                old(schema)@,
                mig.version as int,
                mig.foreign_keys,
                now_iso@,
                outcome@,
            ) == Ok::<SchemaView, ApplyFault>(final(schema)@),
            Err(error) => {
                &&& applied_one(
                    old(schema)@,
                    mig.version as int,
                    mig.foreign_keys,
                    now_iso@,
                    outcome@,
                ) == Err::<SchemaView, ApplyFault>(error@)
                &&& final(schema)@ == old(schema)@
            },
        },
{
    let version: u32 = mig.version;
    if !schema.lacks(version) {
        return Ok(());
    }
    match &outcome.script {
        Err(text) => {
            return Err(ApplyError::Sqlite(text.as_str().to_owned()));
        },
        Ok(()) => {},
    }
    if mig.foreign_keys == ForeignKeys::Off {
        match &outcome.dangling {
            Some(table) => {
                return Err(ApplyError::ForeignKeyCheck(table.as_str().to_owned()));
            },
            None => {},
        }
    }
    let ghost before = schema@;
    schema.applied.push(Applied { version: version as i64, applied_at: now_iso.to_owned() });
    schema.application_id = APPLICATION_ID;
    schema.user_version = version as i64;
    proof {
        assert(schema@ =~= before.with(version as int, now_iso@));
    }
    Ok(())
}

/// Whether the migrations about to run owe a Store Backup: the store already
/// has a schema and is behind.
pub open spec fn owes_backup(recorded: int) -> bool {
    0 < recorded < MAX_KNOWN_VERSION
}

/// Which migrations run on a store at a recorded version: whether a Store
/// Backup comes first, and the versions to apply.
#[derive(Debug)]
pub struct Plan {
    pub backup: bool,
    pub pending: Vec<u32>,
}

/// Plan the migrations of a store at the recorded version. A store with a newer
/// version is refused.
pub fn plan(recorded: i64) -> (r: Result<Plan, ApplyError>)
    ensures
        match r {
            Ok(plan) => {
                &&& recorded <= MAX_KNOWN_VERSION
                &&& plan.backup == owes_backup(recorded as int)
                &&& forall|k: int|
                    0 <= k < plan.pending@.len() ==> #[trigger] plan.pending@[k] == (if recorded < 0 {
                        0
                    } else {
                        recorded as int
                    }) + 1 + k
                &&& plan.pending@.len() == MAX_KNOWN_VERSION - (if recorded < 0 {
                    0
                } else {
                    recorded as int
                })
            },
            Err(error) => recorded > MAX_KNOWN_VERSION && error == ApplyError::StoreFromFutureVersion,
        },
{
    if recorded > MAX_KNOWN_VERSION as i64 {
        return Err(ApplyError::StoreFromFutureVersion);
    }
    let backup = recorded > 0 && recorded < MAX_KNOWN_VERSION as i64;
    let first: u32 = if recorded < 0 {
        1
    } else {
        recorded as u32 + 1
    };
    let mut pending: Vec<u32> = Vec::new();
    let mut version: u32 = first;
    while version <= MAX_KNOWN_VERSION
        invariant
            1 <= first <= version <= MAX_KNOWN_VERSION + 1,
            pending@.len() == version - first,
            forall|k: int| 0 <= k < pending@.len() ==> #[trigger] pending@[k] == first + k,
        decreases MAX_KNOWN_VERSION + 1 - version,
    {
        pending.push(version);
        version = version + 1;
    }
    Ok(Plan { backup, pending })
}

/// What applying the migrations from `version` on makes of a store that was
/// found at `recorded`: the record reached, and the fault that stopped it.
pub open spec fn applied_from(
    v: SchemaView,
    recorded: int,
    version: int,
    now: Seq<char>,
    outcomes: Seq<OutcomeView>,
) -> (SchemaView, Result<(), ApplyFault>)
    decreases MAX_KNOWN_VERSION + 1 - version,
{
    if version > MAX_KNOWN_VERSION {
        (v, Ok(()))
    } else if version <= recorded {
        applied_from(v, recorded, version + 1, now, outcomes)
    } else {
        match applied_one(v, version, mode_of(version), now, outcomes[version - 1]) {
            Err(fault) => (v, Err(fault)),
            Ok(next) => applied_from(next, recorded, version + 1, now, outcomes),
        }
    }
}

/// What applying every missing migration makes of a store.
pub open spec fn applied_all(
    v: SchemaView,
    now: Seq<char>,
    backup: Result<(), BackupFault>,
    outcomes: Seq<OutcomeView>,
) -> (SchemaView, Result<(), ApplyFault>) {
    if v.version() > MAX_KNOWN_VERSION {
        (v, Err(ApplyFault::StoreFromFutureVersion))
    } else if owes_backup(v.version()) && backup is Err {
        (v, Err(ApplyFault::Backup(backup->Err_0)))
    } else {
        applied_from(v, v.version(), 1, now, outcomes)
    }
}

/// What came of writing a Store Backup, texts as characters.
pub open spec fn backed_up(backup: Result<(), BackupError>) -> Result<(), BackupFault> {
    match backup {
        Ok(()) => Ok(()),
        Err(error) => Err(error@),
    }
}

/// A piece of an upgrade for the caller.
#[derive(Clone, Copy, Debug, PartialEq, Eq, Structural)]
pub enum Task {
    /// Write the Store Backup.
    Backup,
    /// Run the script of the version's migration.
    Run(u32),
    /// Nothing is left to do.
    Complete,
}

/// An upgrade under way: a Store Backup where one is owed, then one migration
/// after another, up to the first that fails.
#[derive(Clone, Copy, Debug, PartialEq, Eq, Structural)]
pub struct Upgrade {
    pub task: Task,
    /// The version at which the store was found.
    pub recorded: i64,
}

/// The run of a version's migration, or the end behind the newest.
pub open spec fn run_of(version: int) -> Task {
    if version <= MAX_KNOWN_VERSION {
        Task::Run(version as u32)
    } else {
        Task::Complete
    }
}

/// The version of the first migration that a store found at `recorded` lacks.
pub open spec fn first_missing(recorded: int) -> int {
    if recorded < 0 {
        1
    } else {
        recorded + 1
    }
}

impl Upgrade {
    /// What holds of an upgrade: it is of a store that is not from the future, and
    /// it runs migrations that there are.
    pub open spec fn wf(self) -> bool {
        &&& self.recorded <= MAX_KNOWN_VERSION
        &&& self.task matches Task::Run(version) ==> first_missing(self.recorded as int) <= version
            <= MAX_KNOWN_VERSION
    }

    /// Begin the upgrade of a store found at a version.
    pub fn begin(recorded: i64) -> (r: Result<Upgrade, ApplyError>)
        ensures
            match r {
                Ok(upgrade) => {
                    &&& upgrade.wf()
                    &&& recorded <= MAX_KNOWN_VERSION
                    &&& upgrade.recorded == recorded
                    &&& upgrade.task == (if owes_backup(recorded as int) {
                        Task::Backup
                    } else {
                        run_of(first_missing(recorded as int))
                    })
                },
                Err(error) => recorded > MAX_KNOWN_VERSION && error
                    == ApplyError::StoreFromFutureVersion,
            },
    {
        let planned = match plan(recorded) {
            Ok(planned) => planned,
            Err(error) => {
                return Err(error);
            },
        };
        let task = if planned.backup {
            Task::Backup
        } else if planned.pending.len() > 0 {
            Task::Run(planned.pending[0])
        } else {
            Task::Complete
        };
        Ok(Upgrade { task, recorded })
    }

    /// On after the Store Backup: no script runs where it was not written.
    pub fn backed(self, backup: Result<(), BackupError>) -> (r: Result<Upgrade, ApplyError>)
        requires
            self.wf(),
            self.task == Task::Backup,
        ensures
            match r {
                Ok(next) => {
                    &&& backed_up(backup) is Ok
                    &&& next.wf()
                    &&& next.recorded == self.recorded
                    &&& next.task == run_of(first_missing(self.recorded as int))
                },
                Err(error) => backed_up(backup) is Err && error@ == ApplyFault::Backup(
                    backed_up(backup)->Err_0,
                ),
            },
    {
        match backup {
            Err(error) => Err(ApplyError::Backup(error)),
            Ok(()) => {
                let first: i64 = if self.recorded < 0 {
                    1
                } else {
                    self.recorded + 1
                };
                let task = if first <= MAX_KNOWN_VERSION as i64 {
                    Task::Run(first as u32)
                } else {
                    Task::Complete
                };
                Ok(Upgrade { task, recorded: self.recorded })
            },
        }
    }

    /// On after a migration's script, with the record as it stands now; nothing
    /// runs after the first that fails.
    pub fn ran(self, schema: &mut Schema, now_iso: &str, outcome: &Outcome) -> (r: Result<
        Upgrade,
        ApplyError,
    >)
        requires
            self.wf(),
            self.task is Run,
        ensures
            ({
                let version = self.task->Run_0 as int;
                let made = applied_one(
                    old(schema)@,
                    version,
                    mode_of(version),
                    now_iso@,
                    outcome@,
                );
                match r {
                    Ok(next) => {
                        &&& made == Ok::<SchemaView, ApplyFault>(final(schema)@)
                        &&& next.wf()
                        &&& next.recorded == self.recorded
                        &&& next.task == run_of(version + 1)
                    },
                    Err(error) => {
                        &&& made == Err::<SchemaView, ApplyFault>(error@)
                        &&& final(schema)@ == old(schema)@
                    },
                }
            }),
    {
        let version: u32 = match self.task {
            Task::Run(version) => version,
            _ => 1,
        };
        let mig = migration(version);
        match apply_one(schema, &mig, now_iso, outcome) {
            Err(error) => Err(error),
            Ok(()) => {
                let task = if version < MAX_KNOWN_VERSION {
                    Task::Run(version + 1)
                } else {
                    Task::Complete
                };
                Ok(Upgrade { task, recorded: self.recorded })
            },
        }
    }
}

/// Versions up to the recorded one are passed over.
proof fn lemma_passed_over(
    v: SchemaView,
    recorded: int,
    version: int,
    now: Seq<char>,
    outcomes: Seq<OutcomeView>,
)
    requires
        1 <= version <= first_missing(recorded),
        recorded <= MAX_KNOWN_VERSION,
    ensures
        applied_from(v, recorded, version, now, outcomes) == applied_from(
            v,
            recorded,
            first_missing(recorded),
            now,
            outcomes,
        ),
    decreases first_missing(recorded) - version,
{
    if version < first_missing(recorded) {
        lemma_passed_over(v, recorded, version + 1, now, outcomes);
    }
}

/// Apply every migration that the store lacks. `backup` is what came of writing
/// the Store Backup, where one is owed; `outcomes` what came of each script,
/// that of version 1 first.
pub fn apply_all(schema: &mut Schema, now_iso: &str, backup: Result<(), BackupError>, outcomes: &Vec<Outcome>) -> (r:
    Result<(), ApplyError>)
    requires
        outcomes@.len() == MAX_KNOWN_VERSION,
    ensures
        ({
            let ended: Result<(), ApplyFault> = match r {
                Ok(()) => Ok(()),
                Err(error) => Err(error@),
            };
            applied_all(
                old(schema)@,
                now_iso@,
                backed_up(backup),
                outcomes@.map_values(|o: Outcome| o@),
            ) == (final(schema)@, ended)
        }),
{
    let ghost all = outcomes@.map_values(|o: Outcome| o@);
    let ghost wrote = backed_up(backup);
    let ghost start = schema@;
    let recorded: i64 = schema.current_version();
    let mut upgrade = match Upgrade::begin(recorded) {
        Ok(upgrade) => upgrade,
        Err(error) => {
            return Err(error);
        },
    };
    if upgrade.task == Task::Backup {
        upgrade = match upgrade.backed(backup) {
            Ok(next) => next,
            Err(error) => {
                return Err(error);
            },
        };
    }
    let ghost mut at: int = first_missing(recorded as int);
    proof {
        lemma_passed_over(start, recorded as int, 1, now_iso@, all);
    }
    while upgrade.task != Task::Complete
        invariant
            start == old(schema)@,
            wrote == backed_up(backup),
            all == outcomes@.map_values(|o: Outcome| o@),
            outcomes@.len() == MAX_KNOWN_VERSION,
            upgrade.wf(),
            upgrade.recorded == recorded,
            upgrade.task == run_of(at),
            first_missing(recorded as int) <= at <= MAX_KNOWN_VERSION + 1,
            applied_all(start, now_iso@, wrote, all) == applied_from(
                schema@,
                recorded as int,
                at,
                now_iso@,
                all,
            ),
        decreases MAX_KNOWN_VERSION + 1 - at,
    {
        let version: u32 = match upgrade.task {
            Task::Run(version) => version,
            _ => 1,
        };
        let outcome = &outcomes[version as usize - 1];
        proof {
            assert(version == at);
            assert(all[at - 1] == outcome@);
        }
        upgrade = match upgrade.ran(schema, now_iso, outcome) {
            Ok(next) => next,
            Err(error) => {
                return Err(error);
            },
        };
        proof {
            at = at + 1;
        }
    }
    Ok(())
}

proof fn lemma_applied_from(
    v: SchemaView,
    recorded: int,
    version: int,
    now: Seq<char>,
    outcomes: Seq<OutcomeView>,
)
    requires
        1 <= version <= MAX_KNOWN_VERSION + 1,
        recorded <= v.version(),
        recorded >= 0,
        v.applied.len() == 0 ==> v.version() == 0,
        v.version() <= MAX_KNOWN_VERSION,
        v.version() >= version - 1 || version <= recorded + 1,
    ensures
        applied_from(v, recorded, version, now, outcomes).1 is Ok ==> applied_from(
            v,
            recorded,
            version,
            now,
            outcomes,
        ).0.version() == MAX_KNOWN_VERSION,
        v.applied.is_prefix_of(applied_from(v, recorded, version, now, outcomes).0.applied),
    decreases MAX_KNOWN_VERSION + 1 - version,
{
    if version <= MAX_KNOWN_VERSION {
        if version <= recorded {
            lemma_applied_from(v, recorded, version + 1, now, outcomes);
        } else {
            match applied_one(v, version, mode_of(version), now, outcomes[version - 1]) {
                Err(_) => {},
                Ok(next) => {
                    if version > v.version() {
                        lemma_version_of_push(v, version, now);
                    }
                    lemma_applied_from(next, recorded, version + 1, now, outcomes);
                },
            }
        }
    }
}

proof fn lemma_nothing_pending(
    v: SchemaView,
    version: int,
    now: Seq<char>,
    outcomes: Seq<OutcomeView>,
)
    requires
        1 <= version <= MAX_KNOWN_VERSION + 1,
        v.version() == MAX_KNOWN_VERSION,
    ensures
        applied_from(v, v.version(), version, now, outcomes) == (v, Ok::<(), ApplyFault>(())),
    decreases MAX_KNOWN_VERSION + 1 - version,
{
    if version <= MAX_KNOWN_VERSION {
        lemma_nothing_pending(v, version + 1, now, outcomes);
    }
}

/// Applying the migrations to a current store changes nothing.
pub proof fn law_a_current_store_is_left_alone(
    v: SchemaView,
    now: Seq<char>,
    backup: Result<(), BackupFault>,
    outcomes: Seq<OutcomeView>,
)
    requires
        v.version() == MAX_KNOWN_VERSION,
    ensures
        applied_all(v, now, backup, outcomes) == (v, Ok::<(), ApplyFault>(())),
{
    lemma_nothing_pending(v, 1, now, outcomes);
}

/// A run that succeeds reaches the newest version, so that a second run changes
/// nothing; and no run takes back what is recorded.
pub proof fn law_migrations_only_go_forward(
    v: SchemaView,
    now: Seq<char>,
    later: Seq<char>,
    backup: Result<(), BackupFault>,
    outcomes: Seq<OutcomeView>,
)
    requires
        0 <= v.version(),
    ensures
        v.applied.is_prefix_of(applied_all(v, now, backup, outcomes).0.applied),
        applied_all(v, now, backup, outcomes).1 is Ok ==> {
            let reached = applied_all(v, now, backup, outcomes).0;
            &&& reached.version() == MAX_KNOWN_VERSION
            &&& applied_all(reached, later, backup, outcomes) == (reached, Ok::<(), ApplyFault>(()))
        },
{
    if v.version() <= MAX_KNOWN_VERSION {
        lemma_applied_from(v, v.version(), 1, now, outcomes);
        let reached = applied_all(v, now, backup, outcomes).0;
        if applied_all(v, now, backup, outcomes).1 is Ok {
            law_a_current_store_is_left_alone(reached, later, backup, outcomes);
        }
    }
}

/// Whether the record is one that migrations wrote: each version once, from the
/// first on, under the application's ID and the version reached. A database
/// without a schema is such a one.
pub open spec fn orderly(v: SchemaView) -> bool {
    &&& forall|i: int| 0 <= i < v.applied.len() ==> (#[trigger] v.applied[i]).0 == i + 1
    &&& v.applied.len() > 0 ==> v.user_version == v.applied.len() && v.application_id
        == APPLICATION_ID
}

/// The version of such a record is the number of its rows.
proof fn lemma_orderly_version(v: SchemaView)
    requires
        orderly(v),
    ensures
        v.version() == v.applied.len(),
    decreases v.applied.len(),
{
    if v.applied.len() > 1 {
        let rest = SchemaView {
            applied: v.applied.drop_last(),
            user_version: v.applied.len() - 1,
            ..v
        };
        assert forall|i: int| 0 <= i < rest.applied.len() implies (#[trigger] rest.applied[i]).0
            == i + 1 by {
            assert(rest.applied[i] == v.applied[i]);
        }
        lemma_orderly_version(rest);
        lemma_version_header(rest, SchemaView { applied: v.applied.drop_last(), ..v });
        assert(v.applied.last().0 == v.applied.len());
    } else if v.applied.len() == 1 {
        assert(v.applied[0].0 == 1);
    }
}

proof fn lemma_orderly_from(
    v: SchemaView,
    recorded: int,
    version: int,
    now: Seq<char>,
    outcomes: Seq<OutcomeView>,
)
    requires
        orderly(v),
        0 <= recorded < version <= MAX_KNOWN_VERSION + 1,
        v.applied.len() == version - 1,
    ensures
        ({
            let (reached, ended) = applied_from(v, recorded, version, now, outcomes);
            &&& orderly(reached)
            &&& v.applied.is_prefix_of(reached.applied)
            &&& forall|i: int|
                v.applied.len() <= i < reached.applied.len() ==> (#[trigger] reached.applied[i]).1
                    == now
            &&& reached.applied.len() <= MAX_KNOWN_VERSION
            &&& ended is Ok ==> reached.applied.len() == MAX_KNOWN_VERSION
        }),
    decreases MAX_KNOWN_VERSION + 1 - version,
{
    lemma_orderly_version(v);
    if version <= MAX_KNOWN_VERSION {
        match applied_one(v, version, mode_of(version), now, outcomes[version - 1]) {
            Err(_) => {},
            Ok(next) => {
                assert(next == v.with(version, now));
                assert(next.applied.drop_last() =~= v.applied);
                assert(orderly(next));
                lemma_orderly_from(next, recorded, version + 1, now, outcomes);
                let reached = applied_from(next, recorded, version + 1, now, outcomes).0;
                assert forall|i: int| v.applied.len() <= i < reached.applied.len() implies (
                #[trigger] reached.applied[i]).1 == now by {
                    if i == v.applied.len() {
                        assert(reached.applied[i] == next.applied[i]);
                    }
                }
            },
        }
    }
}

/// A run that succeeds, on a database without a schema or on a store that
/// migrations made, leaves one row for each known version, the new ones with the
/// run's time; the newest version in the header, and the application's ID. A
/// second run then succeeds, changes none of this and owes no Store Backup.
pub proof fn law_a_successful_run_makes_a_current_store(
    v: SchemaView,
    now: Seq<char>,
    backup: Result<(), BackupFault>,
    outcomes: Seq<OutcomeView>,
    later: Seq<char>,
    backup_later: Result<(), BackupFault>,
    outcomes_later: Seq<OutcomeView>,
)
    requires
        orderly(v),
        applied_all(v, now, backup, outcomes).1 is Ok,
    ensures
        ({
            let reached = applied_all(v, now, backup, outcomes).0;
            &&& reached.version() == MAX_KNOWN_VERSION
            &&& reached.user_version == MAX_KNOWN_VERSION
            &&& reached.application_id == APPLICATION_ID
            &&& reached.applied.len() == MAX_KNOWN_VERSION
            &&& forall|i: int|
                0 <= i < MAX_KNOWN_VERSION ==> #[trigger] reached.applied[i] == (if i
                    < v.applied.len() {
                    v.applied[i]
                } else {
                    (i + 1, now)
                })
            &&& !owes_backup(reached.version())
            &&& applied_all(reached, later, backup_later, outcomes_later) == (
                reached,
                Ok::<(), ApplyFault>(()),
            )
        }),
{
    lemma_orderly_version(v);
    lemma_passed_over(v, v.version(), 1, now, outcomes);
    lemma_orderly_from(v, v.version(), v.version() + 1, now, outcomes);
    let reached = applied_all(v, now, backup, outcomes).0;
    lemma_orderly_version(reached);
    law_a_current_store_is_left_alone(reached, later, backup_later, outcomes_later);
    assert forall|i: int| 0 <= i < MAX_KNOWN_VERSION implies #[trigger] reached.applied[i] == (if i
        < v.applied.len() {
        v.applied[i]
    } else {
        (i + 1, now)
    }) by {
        if i >= v.applied.len() {
            assert(reached.applied[i].1 == now);
        }
    }
}

/// An upgrade that cannot be backed up does not happen, and a store from a newer
/// version is not touched.
pub proof fn law_refused_upgrades_change_nothing(
    v: SchemaView,
    now: Seq<char>,
    backup: Result<(), BackupFault>,
    outcomes: Seq<OutcomeView>,
)
    requires
        v.version() > MAX_KNOWN_VERSION || owes_backup(v.version()) && backup is Err,
    ensures
        applied_all(v, now, backup, outcomes).0 == v,
        applied_all(v, now, backup, outcomes).1 is Err,
{
}

} // verus!
