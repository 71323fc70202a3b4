//! Versioned durable-daemon migrations.
//!
//! The application queries what the database already has and runs the
//! statements; which statements a database needs, in which order, is
//! decided here.
use vstd::prelude::*;
use crate::crypto::{sha256_hex, sha256_hex_text};
use crate::json::decimal;
use crate::text::push_all;

verus! {

pub const CURRENT_VERSION: i64 = 6;

pub const LEGACY_OWNER_UNKNOWN: &'static str = "legacy_owner_unknown";

/// Creates the table that records applied migrations.
pub const MIGRATIONS_TABLE_SQL: &'static str = "CREATE TABLE IF NOT EXISTS schema_migrations (version INTEGER PRIMARY KEY, applied_at TEXT NOT NULL DEFAULT CURRENT_TIMESTAMP, migration_digest TEXT NOT NULL);";

/// Daemon instances, run publication state and operator receipts.
pub const INSTANCE_TABLES_SQL: &'static str = "CREATE TABLE IF NOT EXISTS daemon_instances (instance_id TEXT PRIMARY KEY, generation INTEGER NOT NULL UNIQUE, pid INTEGER NOT NULL, boot_id TEXT, executable_digest TEXT, started_at TEXT NOT NULL, heartbeat_at TEXT NOT NULL, clean_shutdown_at TEXT); CREATE TABLE IF NOT EXISTS run_publication_state (run_id TEXT PRIMARY KEY, state TEXT NOT NULL, updated_at TEXT NOT NULL DEFAULT CURRENT_TIMESTAMP, reason TEXT); CREATE TABLE IF NOT EXISTS operator_receipts (receipt_id TEXT PRIMARY KEY, request_digest TEXT NOT NULL, action TEXT NOT NULL, resource_kind TEXT NOT NULL, resource_id TEXT NOT NULL, state_digest TEXT NOT NULL, operator_uid INTEGER NOT NULL, daemon_instance_id TEXT NOT NULL, nonce TEXT NOT NULL UNIQUE, issued_at TEXT NOT NULL, expires_at TEXT NOT NULL, consumed_at TEXT); CREATE INDEX IF NOT EXISTS idx_operator_receipts_nonce ON operator_receipts(nonce);";

pub const ADD_OWNER_SQL: &'static str = "ALTER TABLE executions ADD COLUMN owner_instance_id TEXT;";

/// Marks runs left accepted or running by an unknown owner; its one
/// parameter is `LEGACY_OWNER_UNKNOWN`.
pub const QUARANTINE_LEGACY_SQL: &'static str = "UPDATE executions SET owner_instance_id = ?1 WHERE owner_instance_id IS NULL AND status IN ('accepted','running')";

pub const ADD_BUNDLE_DIGEST_SQL: &'static str = "ALTER TABLE terminal_receipts ADD COLUMN bundle_digest TEXT;";

pub const ADD_SUPERSEDED_SQL: &'static str = "ALTER TABLE executions ADD COLUMN superseded_by TEXT DEFAULT NULL;";

/// Legal holds, archive manifests and the GC policy row.
pub const RETENTION_TABLES_SQL: &'static str = "CREATE TABLE IF NOT EXISTS legal_holds (hold_id TEXT PRIMARY KEY,graph_name TEXT NOT NULL,reason TEXT,issued_at TEXT NOT NULL DEFAULT (datetime('now')),expires_at TEXT,issued_by TEXT);CREATE TABLE IF NOT EXISTS archive_manifests (graph_name TEXT PRIMARY KEY,graph_version TEXT,spec_digest TEXT,version_count INTEGER,last_execution_at TEXT,execution_count INTEGER,content_digest TEXT,created_at TEXT NOT NULL DEFAULT (datetime('now')));CREATE TABLE IF NOT EXISTS gc_policy (id INTEGER PRIMARY KEY CHECK (id = 1),enabled INTEGER NOT NULL DEFAULT 1,idle_archive_days INTEGER NOT NULL DEFAULT 30,review_expire_days INTEGER NOT NULL DEFAULT 60,min_executions INTEGER NOT NULL DEFAULT 5,storage_flag_mb INTEGER NOT NULL DEFAULT 10,last_run TEXT);INSERT OR IGNORE INTO gc_policy (id) VALUES (1);";

/// Records the current version with its digest; parameters: version, digest.
pub const RECORD_VERSION_SQL: &'static str = "INSERT INTO schema_migrations(version,migration_digest) VALUES (?1,?2)";

/// What the database already has, as the application found it.
#[derive(Debug, Clone, Copy, PartialEq, Eq, Structural)]
pub struct SchemaFacts {
    /// `schema_migrations` holds `CURRENT_VERSION`.
    pub version_recorded: bool,
    /// An `executions` table exists.
    pub executions_table: bool,
    /// `executions` has `owner_instance_id`.
    pub owner_column: bool,
    /// A `terminal_receipts` table exists.
    pub terminal_receipts_table: bool,
    /// `terminal_receipts` has `bundle_digest`.
    pub bundle_digest_column: bool,
    /// `executions` has `superseded_by`.
    pub superseded_column: bool,
}

/// One statement of a migration.
pub enum MigrationStep {
    /// A batch of statements without parameters.
    Batch(&'static str),
    /// `QUARANTINE_LEGACY_SQL` with `LEGACY_OWNER_UNKNOWN`.
    QuarantineLegacyRuns,
    /// `RECORD_VERSION_SQL` with `CURRENT_VERSION` and this digest.
    RecordVersion(String),
}

pub enum StepView {
    Batch(Seq<char>),
    QuarantineLegacyRuns,
    RecordVersion(Seq<char>),
}

impl View for MigrationStep {
    type V = StepView;

    open spec fn view(&self) -> StepView {
        match self {
            MigrationStep::Batch(sql) => StepView::Batch(sql@),
            MigrationStep::QuarantineLegacyRuns => StepView::QuarantineLegacyRuns,
            MigrationStep::RecordVersion(d) => StepView::RecordVersion(d@),
        }
    }
}

/// The text hashed into a migration's digest.
pub open spec fn migration_digest_input(binary_digest: Seq<char>) -> Seq<char> {
    "agent-graph-mcp:migration:"@ + decimal(CURRENT_VERSION as nat) + ":"@ + binary_digest
}

/// Lower-case hex SHA-256 binding the migration to the daemon binary.
pub fn migration_digest(binary_digest: &str) -> (r: String)
    ensures
        r@ == sha256_hex_text(migration_digest_input(binary_digest@)),
{
    let mut text = "agent-graph-mcp:migration:".to_owned();
    let v = crate::text::string_from_chars(crate::json::decimal_chars(CURRENT_VERSION as u64).as_slice());
    push_all(&mut text, v.as_str());
    push_all(&mut text, ":");
    push_all(&mut text, binary_digest);
    sha256_hex(text.as_str())
}

/// The statements a database with these facts needs, after the migrations
/// table exists: nothing once the current version is recorded; else the
/// instance tables, the owner column (quarantining legacy runs), the bundle
/// digest and superseded columns where their tables lack them, the
/// retention tables, and the record of this version.
pub open spec fn migration_plan_spec(f: SchemaFacts, digest: Seq<char>) -> Seq<StepView> {
    if f.version_recorded {
        Seq::empty()
    } else {
        seq![StepView::Batch(INSTANCE_TABLES_SQL@)] + (if !f.owner_column && f.executions_table {
            seq![StepView::Batch(ADD_OWNER_SQL@), StepView::QuarantineLegacyRuns]
        } else {
            Seq::empty()
        }) + (if f.terminal_receipts_table && !f.bundle_digest_column {
            seq![StepView::Batch(ADD_BUNDLE_DIGEST_SQL@)]
        } else {
            Seq::empty()
        }) + (if f.executions_table && !f.superseded_column {
            seq![StepView::Batch(ADD_SUPERSEDED_SQL@)]
        } else {
            Seq::empty()
        }) + seq![StepView::Batch(RETENTION_TABLES_SQL@), StepView::RecordVersion(digest)]
    }
}

pub open spec fn steps_view(steps: Seq<MigrationStep>) -> Seq<StepView> {
    steps.map_values(|s: MigrationStep| s@)
}

/// The statements to run; see `migration_plan_spec`, with the digest of
/// `binary_digest`.
pub fn migration_plan(facts: &SchemaFacts, binary_digest: &str) -> (r: Vec<MigrationStep>)
    ensures
        steps_view(r@) == migration_plan_spec(
            *facts,
            sha256_hex_text(migration_digest_input(binary_digest@)),
        ),
{
    let mut steps: Vec<MigrationStep> = Vec::new();
    if facts.version_recorded {
        assert(steps_view(steps@) =~= Seq::<StepView>::empty());
        return steps;
    }
    let ghost digest = sha256_hex_text(migration_digest_input(binary_digest@));
    steps.push(MigrationStep::Batch(INSTANCE_TABLES_SQL));
    if !facts.owner_column && facts.executions_table {
        steps.push(MigrationStep::Batch(ADD_OWNER_SQL));
        steps.push(MigrationStep::QuarantineLegacyRuns);
    }
    if facts.terminal_receipts_table && !facts.bundle_digest_column {
        steps.push(MigrationStep::Batch(ADD_BUNDLE_DIGEST_SQL));
    }
    if facts.executions_table && !facts.superseded_column {
        steps.push(MigrationStep::Batch(ADD_SUPERSEDED_SQL));
    }
    steps.push(MigrationStep::Batch(RETENTION_TABLES_SQL));
    steps.push(MigrationStep::RecordVersion(migration_digest(binary_digest)));
    assert(steps_view(steps@) =~= migration_plan_spec(*facts, digest));
    steps
}

/// A migration records the current version last, so running the plan again
/// on the migrated database does nothing: migrations are idempotent.
pub proof fn lemma_migration_idempotent(f: SchemaFacts, digest: Seq<char>, later: SchemaFacts)
    requires
        !f.version_recorded,
        later.version_recorded,
    ensures
        migration_plan_spec(f, digest).last() == StepView::RecordVersion(digest),
        migration_plan_spec(later, digest).len() == 0,
{
}

/// `rusqlite::Error`, carried opaquely.
#[verifier::external_type_specification]
#[verifier::external_body]
pub struct ExSqliteError(rusqlite::Error);

/// `rusqlite::Error::InvalidParameterName(name)`. Nothing is stated of the
/// value: it is opaque here.
#[verifier::external_body]
fn invalid_parameter_name(name: &str) -> rusqlite::Error {
    rusqlite::Error::InvalidParameterName(name.to_owned())
}

/// A new run must name its owning daemon instance.
pub fn owner_for_new_run(owner: &str) -> (r: Result<&str, rusqlite::Error>)
    ensures
        owner@.len() == 0 <==> r is Err,
        r matches Ok(o) ==> o@ == owner@,
{
    if owner.is_empty() {
        Err(invalid_parameter_name("owner_instance_id"))
    } else {
        Ok(owner)
    }
}

} // verus!
