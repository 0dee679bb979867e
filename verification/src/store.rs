//! The rules of the canonical SQLite store: its migration chain, the single
//! predicate that decides whether a file is ours to write, and the health and
//! stats projections derived from what the file holds.

use vstd::prelude::*;

use crate::contracts::{
    CURRENT_SCHEMA_VERSION, HealthReport, OriginClass, SchemaVersion, SourceKind, SqliteFacts,
    StatsReport, WorkspaceStatus, is_wal_reset_window, is_withdrawn_release,
};
use crate::text::{decimal, join, owned, push_char, push_decimal, push_str, string_of};

verus! {

/// File identity written to `PRAGMA application_id` (ASCII `MMOT`), so that
/// opening a foreign SQLite file fails loudly instead of creating tables in it.
/// SQLite keeps the id in a signed 32-bit field, and the value is positive.
pub const APPLICATION_ID: i32 = 0x4D4D_4F54;

/// Identity of the source-key scheme this build writes.
pub const KEY_SCHEME: &'static str = "v2";

/// Row counts used by the `stats` projection.
#[derive(Debug, Clone, Copy, PartialEq, Eq, Structural)]
pub struct SourceCounts {
    /// Distinct source keys in `source_revisions`.
    pub sources: u64,
    /// Total rows in `source_revisions`.
    pub revisions: u64,
    /// Total rows in `chunks`.
    pub chunks: u64,
}

/// A new source revision to append; the store owns the `is_current` flag.
#[derive(Debug, Clone, PartialEq)]
pub struct NewSourceRevision<'a> {
    /// Canonical identity.
    pub source_key: &'a str,
    /// `sha256` over normalized source bytes.
    pub revision_hash: &'a str,
    /// Content kind.
    pub kind: SourceKind,
    /// Display title, when derivable.
    pub title: Option<&'a str>,
    /// Remote URI, when the source has one.
    pub uri: Option<&'a str>,
    /// Workspace-relative, `/`-joined path when the source lives on disk.
    pub local_path: Option<&'a str>,
    /// The file name exactly as the vault spelled it.
    pub raw_name: Option<&'a str>,
    /// Trust origin.
    pub origin_class: OriginClass,
    /// JSON metadata blob (fingerprint, tool tag, provider data).
    pub metadata_json: &'a str,
    /// Unix epoch seconds at ingestion.
    pub ingested_at: i64,
}

/// One forward-only migration step: the SQL that brings the schema to
/// `target`, applied in one transaction whose last statement stamps `target`.
#[derive(Debug, Clone, Copy, PartialEq, Eq)]
pub struct MigrationStep {
    /// The schema version after the step.
    pub target: u32,
    /// The statements of the step.
    pub sql: &'static str,
}

/// The targets of the migration chain, in order.
pub open spec fn migration_targets() -> Seq<u32> {
    seq![1u32, 2u32, 3u32]
}

/// The targets of a list of steps.
pub open spec fn targets_of(steps: Seq<MigrationStep>) -> Seq<u32> {
    steps.map_values(|m: MigrationStep| m.target)
}

/// 1 -> 2: canonical source revisions and chunks.
pub const REVISIONS_AND_CHUNKS_SQL: &'static str = "CREATE TABLE IF NOT EXISTS source_revisions (
  source_key TEXT NOT NULL,
  revision_hash TEXT NOT NULL,
  kind TEXT NOT NULL,
  title TEXT,
  uri TEXT,
  local_path TEXT,
  origin_class TEXT NOT NULL,
  metadata_json TEXT NOT NULL,
  ingested_at INTEGER NOT NULL,
  is_current INTEGER NOT NULL,
  PRIMARY KEY (source_key, revision_hash)
);
CREATE TABLE IF NOT EXISTS chunks (
  chunk_id TEXT PRIMARY KEY,
  source_key TEXT NOT NULL,
  revision_hash TEXT NOT NULL,
  ordinal INTEGER NOT NULL,
  heading_path TEXT,
  text TEXT NOT NULL,
  locator_json TEXT NOT NULL,
  chunk_hash TEXT NOT NULL,
  token_estimate INTEGER NOT NULL
);
CREATE INDEX IF NOT EXISTS idx_chunks_rev ON chunks(source_key, revision_hash);
CREATE INDEX IF NOT EXISTS idx_revisions_current ON source_revisions(source_key) WHERE is_current = 1;";

/// 2 -> 3: key scheme v2, the raw spelling of a name beside its key.
pub const RAW_NAME_SQL: &'static str = "ALTER TABLE source_revisions ADD COLUMN raw_name TEXT;";

/// The ordered, forward-only migration steps. The baseline step (0 -> 1) only
/// records the version: the metadata table is created before the chain runs.
pub fn migrations() -> (steps: Vec<MigrationStep>)
    ensures
        steps@ == migrations_spec(),
        targets_of(steps@) == migration_targets(),
{
    let steps = vec![
        MigrationStep { target: 1, sql: "" },
        MigrationStep { target: 2, sql: REVISIONS_AND_CHUNKS_SQL },
        MigrationStep { target: 3, sql: RAW_NAME_SQL },
    ];
    assert(steps@ =~= migrations_spec());
    assert(targets_of(steps@) =~= migration_targets());
    steps
}

/// Law: the chain starts at 1, its targets strictly increase one version at a
/// time, and it ends at the schema version this build understands.
pub proof fn law_migration_chain_is_ordered()
    ensures
        migration_targets()[0] == 1,
        forall|i: int|
            0 <= i < migration_targets().len() - 1 ==> #[trigger] migration_targets()[i] + 1
                == migration_targets()[i + 1],
        migration_targets().last() == CURRENT_SCHEMA_VERSION,
{
}

/// The steps newer than `version`, in chain order.
pub open spec fn pending_targets(version: u32) -> Seq<u32> {
    migration_targets().filter(|t: u32| t > version)
}

/// The steps to apply to a database at `version`: every step with a newer
/// target, in order.
pub fn pending_migrations(version: u32) -> (steps: Vec<MigrationStep>)
    ensures
        targets_of(steps@) == pending_targets(version),
        forall|i: int|
            0 <= i < steps@.len() ==> exists|j: int|
                0 <= j < 3 && #[trigger] steps@[i] == migrations_spec()[j],
{
    let all = migrations();
    let mut steps: Vec<MigrationStep> = Vec::new();
    let mut i: usize = 0;
    while i < all.len()
        invariant
            i <= all@.len(),
            all@.len() == 3,
            all@ == migrations_spec(),
            targets_of(steps@) == migration_targets().take(i as int).filter(|t: u32| t > version),
            forall|k: int|
                0 <= k < steps@.len() ==> exists|j: int|
                    0 <= j < 3 && #[trigger] steps@[k] == migrations_spec()[j],
        decreases all@.len() - i,
    {
        proof {
            let ts = migration_targets();
            assert(ts.take(i + 1).drop_last() =~= ts.take(i as int));
            reveal_with_fuel(Seq::filter, 1);
            assert(all@[i as int].target == ts[i as int]);
        }
        if all[i].target > version {
            let ghost before = steps@;
            steps.push(all[i]);
            proof {
                assert(targets_of(steps@) =~= targets_of(before).push(all@[i as int].target));
                assert forall|k: int| 0 <= k < steps@.len() implies exists|j: int|
                    0 <= j < 3 && #[trigger] steps@[k] == migrations_spec()[j] by {
                    if k == before.len() {
                        assert(steps@[k] == migrations_spec()[i as int]);
                    } else {
                        assert(steps@[k] == before[k]);
                    }
                }
            }
        } else {
            proof {
                assert(targets_of(steps@) =~= migration_targets().take(i + 1).filter(
                    |t: u32| t > version,
                ));
            }
        }
        i = i + 1;
    }
    proof {
        assert(migration_targets().take(3) =~= migration_targets());
    }
    steps
}

/// The migration steps as values.
pub open spec fn migrations_spec() -> Seq<MigrationStep> {
    seq![
        MigrationStep { target: 1, sql: "" },
        MigrationStep { target: 2, sql: REVISIONS_AND_CHUNKS_SQL },
        MigrationStep { target: 3, sql: RAW_NAME_SQL },
    ]
}

/// Law: applying the pending steps to any version this build understands
/// walks one version at a time from the next version to the current one, so
/// the last stamp written is the current schema version.
pub proof fn law_pending_steps_reach_current(version: u32)
    requires
        version <= CURRENT_SCHEMA_VERSION,
    ensures
        pending_targets(version).len() == CURRENT_SCHEMA_VERSION - version,
        forall|i: int|
            0 <= i < pending_targets(version).len() ==> #[trigger] pending_targets(version)[i]
                == version + 1 + i,
{
    reveal_with_fuel(Seq::filter, 4);
    let ts = migration_targets();
    assert(ts.drop_last().drop_last().drop_last() =~= Seq::<u32>::empty());
    assert(ts.drop_last().drop_last() =~= seq![1u32]);
    assert(ts.drop_last() =~= seq![1u32, 2u32]);
    if version == 0 {
        assert(pending_targets(version) =~= seq![1u32, 2u32, 3u32]);
    } else if version == 1 {
        assert(pending_targets(version) =~= seq![2u32, 3u32]);
    } else if version == 2 {
        assert(pending_targets(version) =~= seq![3u32]);
    } else {
        assert(pending_targets(version) =~= Seq::<u32>::empty());
    }
}

/// Whether opening a store at `version` must first write a verified backup:
/// an existing store that migrations are about to change. A brand-new file has
/// nothing to lose.
pub fn backup_needed(version: u32) -> (r: bool)
    ensures
        r == (0 < version && version < CURRENT_SCHEMA_VERSION),
{
    version > 0 && version < CURRENT_SCHEMA_VERSION
}

/// The statement that stamps a migration step's version; it is the last
/// statement of the step's transaction.
pub fn version_stamp_sql(target: u32) -> (sql: String)
    ensures
        sql@ == "PRAGMA user_version = "@ + decimal(target as nat) + ";"@,
{
    let mut sql = owned("PRAGMA user_version = ");
    push_decimal(&mut sql, target as u64);
    push_str(&mut sql, ";");
    sql
}

/// The schema version a `PRAGMA user_version` value stands for; `0` means no
/// schema yet.
pub fn schema_version_of(user_version: u32) -> (v: Option<SchemaVersion>)
    ensures
        v == if user_version > 0 {
            Some(SchemaVersion(user_version))
        } else {
            None
        },
{
    if user_version > 0 {
        Some(SchemaVersion(user_version))
    } else {
        None
    }
}

/// Why this build refuses to write into a database file.
#[derive(Debug, Clone, PartialEq, Eq)]
pub enum WriteRefusal {
    /// The file carries another application's id.
    ForeignDatabase(i32),
    /// The file was written by a newer build: found, supported.
    SchemaTooNew(u32, u32),
    /// The store predates the `user_version` carrier; the version it recorded.
    LegacyStore(String),
    /// A schema version without our identity.
    NoIdentity(u32),
    /// Objects this build did not create, comma separated.
    ForeignObjects(String),
}

/// A refusal as plain values.
pub enum RefusalView {
    ForeignDatabase(i32),
    SchemaTooNew(u32, u32),
    LegacyStore(Seq<char>),
    NoIdentity(u32),
    ForeignObjects(Seq<char>),
}

impl View for WriteRefusal {
    type V = RefusalView;

    open spec fn view(&self) -> RefusalView {
        match self {
            WriteRefusal::ForeignDatabase(found) => RefusalView::ForeignDatabase(*found),
            WriteRefusal::SchemaTooNew(found, supported) => RefusalView::SchemaTooNew(
                *found,
                *supported,
            ),
            WriteRefusal::LegacyStore(found) => RefusalView::LegacyStore(found@),
            WriteRefusal::NoIdentity(found) => RefusalView::NoIdentity(*found),
            WriteRefusal::ForeignObjects(objects) => RefusalView::ForeignObjects(objects@),
        }
    }
}

/// The single answer to "may this build write into this file?", from its
/// application id, its `user_version`, the version a pre-`user_version`
/// build recorded (looked at only when `version == 0`) and the objects it
/// holds that this build did not create (looked at only when it has neither
/// an id nor a version).
pub open spec fn refusal_of(
    found_id: i32,
    version: u32,
    legacy: Option<Seq<char>>,
    objects: Seq<Seq<char>>,
) -> Option<RefusalView> {
    if found_id != 0 && found_id != APPLICATION_ID {
        Some(RefusalView::ForeignDatabase(found_id))
    } else if version > CURRENT_SCHEMA_VERSION {
        Some(RefusalView::SchemaTooNew(version, CURRENT_SCHEMA_VERSION))
    } else if version == 0 && legacy is Some {
        Some(RefusalView::LegacyStore(legacy->0))
    } else if found_id == 0 && version > 0 {
        Some(RefusalView::NoIdentity(version))
    } else if found_id == 0 && objects.len() > 0 {
        Some(RefusalView::ForeignObjects(join(objects, ", "@)))
    } else {
        None
    }
}

/// Decides whether this build may write into a database file: a foreign
/// application id, a newer schema, a legacy version carrier, a version with no
/// identity, and foreign objects are refused, in that order.
pub fn write_refusal(
    found_id: i32,
    version: u32,
    legacy: Option<String>,
    objects: &Vec<String>,
) -> (refusal: Option<WriteRefusal>)
    ensures
        ({
            let expected = refusal_of(
                found_id,
                version,
                match legacy {
                    Some(l) => Some(l@),
                    None => None,
                },
                objects@.map_values(|o: String| o@),
            );
            match refusal {
                Some(r) => expected == Some(r@),
                None => expected is None,
            }
        }),
{
    if found_id != 0 && found_id != APPLICATION_ID {
        return Some(WriteRefusal::ForeignDatabase(found_id));
    }
    if version > CURRENT_SCHEMA_VERSION {
        return Some(WriteRefusal::SchemaTooNew(version, CURRENT_SCHEMA_VERSION));
    }
    if version == 0 {
        if let Some(found) = legacy {
            return Some(WriteRefusal::LegacyStore(found));
        }
    }
    if found_id == 0 {
        if version > 0 {
            return Some(WriteRefusal::NoIdentity(version));
        }
        if objects.len() > 0 {
            let mut parts: Vec<Vec<char>> = Vec::new();
            let mut i: usize = 0;
            while i < objects.len()
                invariant
                    i <= objects@.len(),
                    parts@.map_values(|p: Vec<char>| p@) == objects@.map_values(
                        |o: String| o@,
                    ).take(i as int),
                decreases objects@.len() - i,
            {
                let ghost before = parts@;
                let piece = crate::text::chars_of(objects[i].as_str());
                let ghost pv = piece@;
                assert(pv == objects@[i as int]@);
                parts.push(piece);
                proof {
                    assert(before.map_values(|p: Vec<char>| p@).len() == i);
                    assert(parts@.map_values(|p: Vec<char>| p@)[i as int] == objects@[i as int]@);
                    assert(parts@.map_values(|p: Vec<char>| p@) =~= objects@.map_values(
                        |o: String| o@,
                    ).take(i + 1));
                }
                i = i + 1;
            }
            proof {
                assert(objects@.map_values(|o: String| o@).take(i as int) =~= objects@.map_values(
                    |o: String| o@,
                ));
            }
            let mut joined = String::new();
            let sep = [',', ' '];
            assert(sep@ =~= ", "@) by {
                reveal_strlit(", ");
            }
            crate::text::push_joined(&mut joined, &parts, &sep);
            return Some(WriteRefusal::ForeignObjects(joined));
        }
    }
    None
}

/// Decimal spelling of a signed number, as `i32::to_string` renders it.
pub open spec fn signed_decimal(v: int) -> Seq<char> {
    if v < 0 {
        seq!['-'] + decimal((-v) as nat)
    } else {
        decimal(v as nat)
    }
}

fn push_signed(out: &mut String, v: i32)
    ensures
        final(out)@ == old(out)@ + signed_decimal(v as int),
{
    if v < 0 {
        push_char(out, '-');
        let magnitude: u64 = (0i64 - v as i64) as u64;
        push_decimal(out, magnitude);
        assert(old(out)@.push('-') + decimal(magnitude as nat) == old(out)@ + (seq!['-']
            + decimal(magnitude as nat)));
    } else {
        push_decimal(out, v as u64);
    }
}

/// The sentence a refusal is reported with.
pub open spec fn refusal_text(r: RefusalView) -> Seq<char> {
    match r {
        RefusalView::ForeignDatabase(found) => "database application_id "@ + signed_decimal(
            found as int,
        ) + " is not a Momotaro store"@,
        RefusalView::SchemaTooNew(found, supported) => "database schema version "@ + decimal(
            found as nat,
        ) + " is newer than supported "@ + decimal(supported as nat),
        RefusalView::LegacyStore(found) => "store predates the user_version carrier (recorded schema version "@
            + found + "); delete the workspace data directory and re-index"@,
        RefusalView::NoIdentity(found) => "database has no Momotaro identity but claims schema version "@
            + decimal(found as nat) + "; refusing to write"@,
        RefusalView::ForeignObjects(objects) => "database holds objects this build did not create ("@
            + objects + "); refusing to write"@,
    }
}

impl WriteRefusal {
    /// The refusal as the store reports it.
    pub fn message(&self) -> (text: String)
        ensures
            text@ == refusal_text(self@),
    {
        match self {
            WriteRefusal::ForeignDatabase(found) => {
                let mut t = owned("database application_id ");
                push_signed(&mut t, *found);
                push_str(&mut t, " is not a Momotaro store");
                t
            },
            WriteRefusal::SchemaTooNew(found, supported) => {
                let mut t = owned("database schema version ");
                push_decimal(&mut t, *found as u64);
                push_str(&mut t, " is newer than supported ");
                push_decimal(&mut t, *supported as u64);
                t
            },
            WriteRefusal::LegacyStore(found) => {
                let mut t = owned("store predates the user_version carrier (recorded schema version ");
                push_str(&mut t, found.as_str());
                push_str(&mut t, "); delete the workspace data directory and re-index");
                t
            },
            WriteRefusal::NoIdentity(found) => {
                let mut t = owned("database has no Momotaro identity but claims schema version ");
                push_decimal(&mut t, *found as u64);
                push_str(&mut t, "; refusing to write");
                t
            },
            WriteRefusal::ForeignObjects(objects) => {
                let mut t = owned("database holds objects this build did not create (");
                push_str(&mut t, objects.as_str());
                push_str(&mut t, "); refusing to write");
                t
            },
        }
    }
}

/// Whether a message is present and reads `text`.
pub open spec fn says(message: Option<String>, text: Seq<char>) -> bool {
    match message {
        Some(m) => m@ == text,
        None => false,
    }
}

/// The store's health: a file this build refuses to write is `Invalid` with
/// the refusal's own words; otherwise the schema version decides.
pub open spec fn health_ok(
    r: HealthReport,
    schema_version: Option<SchemaVersion>,
    refusal: Option<Seq<char>>,
) -> bool {
    &&& r.schema_version == schema_version
    &&& r.sqlite is None
    &&& match refusal {
        Some(text) => r.status == WorkspaceStatus::Invalid && says(r.message, text),
        None => match schema_version {
            Some(SchemaVersion(found)) => if found == CURRENT_SCHEMA_VERSION {
                r.status == WorkspaceStatus::Ready && r.message is None
            } else if found > CURRENT_SCHEMA_VERSION {
                r.status == WorkspaceStatus::Invalid && says(
                    r.message,
                    "database schema version "@ + decimal(found as nat)
                        + " is newer than supported "@ + decimal(CURRENT_SCHEMA_VERSION as nat),
                )
            } else {
                r.status == WorkspaceStatus::Invalid && says(
                    r.message,
                    "database schema version "@ + decimal(found as nat) + " requires migrations"@,
                )
            },
            None => r.status == WorkspaceStatus::Uninitialized && says(
                r.message,
                "database has not been initialized"@,
            ),
        },
    }
}

/// Derives the store's health from its schema version and the write refusal,
/// if any (its message text).
pub fn health_from(schema_version: Option<SchemaVersion>, refusal: Option<String>) -> (report:
    HealthReport)
    ensures
        health_ok(
            report,
            schema_version,
            match refusal {
                Some(t) => Some(t@),
                None => None,
            },
        ),
{
    if let Some(text) = refusal {
        return HealthReport {
            status: WorkspaceStatus::Invalid,
            schema_version,
            sqlite: None,
            message: Some(text),
        };
    }
    let (status, message) = match schema_version {
        Some(SchemaVersion(found)) => {
            if found == CURRENT_SCHEMA_VERSION {
                (WorkspaceStatus::Ready, None)
            } else if found > CURRENT_SCHEMA_VERSION {
                let mut m = owned("database schema version ");
                push_decimal(&mut m, found as u64);
                push_str(&mut m, " is newer than supported ");
                push_decimal(&mut m, CURRENT_SCHEMA_VERSION as u64);
                (WorkspaceStatus::Invalid, Some(m))
            } else {
                let mut m = owned("database schema version ");
                push_decimal(&mut m, found as u64);
                push_str(&mut m, " requires migrations");
                (WorkspaceStatus::Invalid, Some(m))
            }
        },
        None => (WorkspaceStatus::Uninitialized, Some(owned("database has not been initialized"))),
    };
    HealthReport { status, schema_version, sqlite: None, message }
}

/// Law: the store calls a file ready only when it would also write into it
/// and its schema is exactly the current one.
pub proof fn law_ready_store_is_current_and_writable(
    r: HealthReport,
    schema_version: Option<SchemaVersion>,
    refusal: Option<Seq<char>>,
)
    requires
        health_ok(r, schema_version, refusal),
        r.status == WorkspaceStatus::Ready,
    ensures
        refusal is None,
        schema_version == Some(SchemaVersion(CURRENT_SCHEMA_VERSION)),
{
}

/// The stats projection of a store: status and version come from its health
/// (one derivation), and the counts only when it is ready.
pub fn stats_from(health: &HealthReport, database_path: String, counts: Option<SourceCounts>) -> (stats:
    StatsReport)
    ensures
        stats.status == health.status,
        stats.schema_version == health.schema_version,
        stats.database_path@ == database_path@,
        stats.initialized == (health.status == WorkspaceStatus::Ready),
        stats.sources == if stats.initialized {
            match counts {
                Some(c) => Some(c.sources),
                None => None,
            }
        } else {
            None
        },
        stats.chunks == if stats.initialized {
            match counts {
                Some(c) => Some(c.chunks),
                None => None,
            }
        } else {
            None
        },
{
    let initialized = health.status == WorkspaceStatus::Ready;
    let (sources, chunks) = if initialized {
        match counts {
            Some(c) => (Some(c.sources), Some(c.chunks)),
            None => (None, None),
        }
    } else {
        (None, None)
    };
    StatsReport {
        status: health.status,
        schema_version: health.schema_version,
        database_path,
        initialized,
        sources,
        chunks,
    }
}

/// The stats of a workspace whose database file does not exist yet.
pub fn uninitialized_stats(database_path: String) -> (stats: StatsReport)
    ensures
        stats.status == WorkspaceStatus::Uninitialized,
        stats.schema_version is None,
        stats.database_path@ == database_path@,
        !stats.initialized,
        stats.sources is None,
        stats.chunks is None,
{
    StatsReport {
        status: WorkspaceStatus::Uninitialized,
        schema_version: None,
        database_path,
        initialized: false,
        sources: None,
        chunks: None,
    }
}

/// The engine facts, with both refusal windows decided from the version
/// number.
pub fn sqlite_facts_from(
    version: String,
    version_number: i32,
    source_id: String,
    compile_options: Vec<String>,
) -> (facts: SqliteFacts)
    ensures
        facts.version@ == version@,
        facts.version_number == version_number,
        facts.source_id@ == source_id@,
        facts.compile_options@ == compile_options@,
        facts.wal_reset_window == crate::contracts::in_wal_reset_window(version_number as int),
        facts.withdrawn_release == crate::contracts::in_withdrawn_series(version_number as int),
{
    SqliteFacts {
        version,
        version_number,
        source_id,
        compile_options,
        wal_reset_window: is_wal_reset_window(version_number),
        withdrawn_release: is_withdrawn_release(version_number),
    }
}

/// `?1, ?2, …, ?n`: the positional placeholders of an `IN` clause over `n`
/// values.
pub open spec fn placeholders(n: nat) -> Seq<char>
    decreases n,
{
    if n == 0 {
        seq![]
    } else if n == 1 {
        "?1"@
    } else {
        placeholders((n - 1) as nat) + ", ?"@ + decimal(n)
    }
}

/// The placeholders `?1, ?2, …` covering `n` bound values.
pub fn numbered_placeholders(n: usize) -> (text: String)
    ensures
        text@ == placeholders(n as nat),
{
    let mut text = String::new();
    let mut i: usize = 0;
    while i < n
        invariant
            i <= n,
            text@ == placeholders(i as nat),
        decreases n - i,
    {
        let ghost before = text@;
        if i > 0 {
            push_str(&mut text, ", ");
        }
        push_char(&mut text, '?');
        push_decimal(&mut text, (i + 1) as u64);
        proof {
            reveal_strlit(", ");
            reveal_strlit("?1");
            reveal_strlit(", ?");
            if i == 0 {
                assert(text@ =~= "?1"@);
            } else {
                assert(text@ =~= before + ", ?"@ + decimal((i + 1) as nat));
            }
        }
        i = i + 1;
    }
    text
}

} // verus!
