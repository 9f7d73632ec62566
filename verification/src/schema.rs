//! The schema: tables, indexes, the seeded default bank and database
//! identity, and the rebuild of a store from before the sync columns.
use vstd::prelude::*;
use crate::db::{Db, grew, Call, SqlV, args_view};
use crate::db::{SqlValue, db_execute, db_batch, query_int, query_exists, text};
use crate::clock::now_iso;
use crate::ids::generate_id;
use crate::text::{cat, cat3};

verus! {

/// Business time of seeded rows: the epoch, so that a new device's seed never
/// looks like a fresh edit to last-writer-wins.
pub fn seed_epoch() -> (r: &'static str)
    ensures
        r@ == "1970-01-01T00:00:00.000Z"@,
{
    "1970-01-01T00:00:00.000Z"
}

/// The current schema version.
pub fn schema_version() -> (r: &'static str)
    ensures
        r@ == "3"@,
{
    "3"
}

/// The id of the bank every store starts with.
pub fn default_bank() -> (r: &'static str)
    ensures
        r@ == "bank_default"@,
{
    "bank_default"
}

/// The full DDL; every statement is idempotent.
pub const MIGRATIONS: &'static str = "CREATE TABLE IF NOT EXISTS banks (
  id TEXT PRIMARY KEY,
  name TEXT NOT NULL,
  description TEXT,
  created_at TEXT NOT NULL,
  updated_at TEXT NOT NULL,
  synced_at TEXT NOT NULL
);
CREATE INDEX IF NOT EXISTS idx_banks_synced ON banks(synced_at);

CREATE TABLE IF NOT EXISTS questions (
  id TEXT PRIMARY KEY,
  bank_id TEXT REFERENCES banks(id) ON DELETE CASCADE,
  type TEXT NOT NULL CHECK (type IN ('single','multi','judge','fill','short','material')),
  version INTEGER NOT NULL DEFAULT 2,
  difficulty INTEGER NOT NULL DEFAULT 2,
  score REAL,
  status TEXT NOT NULL DEFAULT 'published',
  stem_json TEXT NOT NULL,
  options_json TEXT,
  answer_json TEXT,
  analysis_json TEXT,
  children_json TEXT,
  plain_text TEXT NOT NULL DEFAULT '',
  created_at TEXT NOT NULL,
  updated_at TEXT NOT NULL,
  synced_at TEXT NOT NULL
);
CREATE INDEX IF NOT EXISTS idx_questions_type   ON questions(type);
CREATE INDEX IF NOT EXISTS idx_questions_status ON questions(status);
CREATE INDEX IF NOT EXISTS idx_questions_bank   ON questions(bank_id);
CREATE INDEX IF NOT EXISTS idx_questions_updated ON questions(updated_at);
CREATE INDEX IF NOT EXISTS idx_questions_synced ON questions(synced_at);

CREATE TABLE IF NOT EXISTS practice_records (
  id TEXT PRIMARY KEY,
  question_id TEXT NOT NULL REFERENCES questions(id) ON DELETE CASCADE,
  mode TEXT NOT NULL CHECK (mode IN ('practice','review','exam')),
  grade TEXT NOT NULL CHECK (grade IN ('again','hard','good','easy')),
  correct INTEGER NOT NULL,
  answered_at TEXT NOT NULL,
  elapsed_ms INTEGER,
  detail_json TEXT,
  fsrs_log TEXT,
  synced_at TEXT NOT NULL
);
CREATE INDEX IF NOT EXISTS idx_records_question ON practice_records(question_id);
CREATE INDEX IF NOT EXISTS idx_records_answered ON practice_records(answered_at);
CREATE INDEX IF NOT EXISTS idx_records_synced ON practice_records(synced_at);

CREATE TABLE IF NOT EXISTS review_state (
  question_id TEXT PRIMARY KEY REFERENCES questions(id) ON DELETE CASCADE,
  due_at TEXT NOT NULL,
  stability REAL NOT NULL DEFAULT 0,
  difficulty REAL NOT NULL DEFAULT 0,
  reps INTEGER NOT NULL DEFAULT 0,
  lapses INTEGER NOT NULL DEFAULT 0,
  state INTEGER NOT NULL DEFAULT 0,
  learning_steps INTEGER NOT NULL DEFAULT 0,
  scheduled_days REAL NOT NULL DEFAULT 0,
  last_result TEXT,
  last_reviewed_at TEXT,
  updated_at TEXT NOT NULL
);

CREATE TABLE IF NOT EXISTS wrong_dismiss (
  question_id TEXT PRIMARY KEY REFERENCES questions(id) ON DELETE CASCADE,
  is_dismissed INTEGER NOT NULL DEFAULT 1,
  updated_at TEXT NOT NULL,
  dismissed_at TEXT,
  synced_at TEXT NOT NULL
);

CREATE TABLE IF NOT EXISTS assets (
  sha TEXT PRIMARY KEY,
  mime TEXT NOT NULL,
  size INTEGER NOT NULL,
  width INTEGER,
  height INTEGER,
  created_at TEXT NOT NULL
);

CREATE TABLE IF NOT EXISTS delete_log (
  id TEXT PRIMARY KEY,
  entity_type TEXT NOT NULL CHECK (entity_type IN ('bank','question')),
  entity_id TEXT NOT NULL,
  bank_id TEXT,
  deleted_at TEXT NOT NULL,
  actor TEXT,
  synced_at TEXT NOT NULL
);
CREATE UNIQUE INDEX IF NOT EXISTS idx_delete_log_entity ON delete_log(entity_type, entity_id);
CREATE INDEX IF NOT EXISTS idx_delete_log_synced ON delete_log(synced_at);

CREATE TABLE IF NOT EXISTS app_settings (
  key TEXT PRIMARY KEY,
  value_json TEXT NOT NULL,
  updated_at TEXT NOT NULL
);

CREATE TABLE IF NOT EXISTS db_meta (
  key TEXT PRIMARY KEY,
  value TEXT NOT NULL
);";

/// The full DDL.
pub fn migrations() -> (r: &'static str)
    ensures
        r@ == MIGRATIONS@,
{
    MIGRATIONS
}

/// Whether the default bank was tombstoned.
pub const DEFAULT_TOMB: &'static str = "SELECT 1 FROM delete_log WHERE entity_type = 'bank' AND entity_id = ?1";
/// Inserts the default bank, keeping one that exists: id, business time,
/// sync time.
pub const SEED_BANK: &'static str = "INSERT OR IGNORE INTO banks (id, name, description, created_at, updated_at, synced_at)
         VALUES (?1, '默认题库', NULL, ?2, ?2, ?3)";
/// Inserts a `db_meta` entry, keeping one that exists.
pub const META_SEED: &'static str = "INSERT OR IGNORE INTO db_meta (key, value) VALUES (?1, ?2)";

/// From position `from` on, the journal asked whether the default bank was
/// tombstoned and, where it was not, inserted it (if absent) with the epoch
/// as its business time.
pub open spec fn bank_seeded(log: Seq<Call>, from: int) -> bool {
    exists|k: int| from <= k < log.len() && #[trigger] tomb_checked(log, k)
}

/// Call `k` asked whether the default bank was tombstoned and, where it was
/// not, a later call inserted it.
pub open spec fn tomb_checked(log: Seq<Call>, k: int) -> bool {
    &&& log[k] matches Call::Read { sql: s, args: a, rows: Some(rs) }
    &&& s == DEFAULT_TOMB@ && a == seq![SqlV::Text("bank_default"@)]
    &&& rs.len() == 0 ==> exists|j: int| k < j < log.len() && seed_bank_call(#[trigger] log[j])
}

/// The call inserted the default bank with the epoch as its business time.
pub open spec fn seed_bank_call(c: Call) -> bool {
    &&& c matches Call::Run { sql: s, args: a, done: Some(_) }
    &&& s == SEED_BANK@ && a.len() == 3
    &&& a[0] == SqlV::Text("bank_default"@) && a[1] == SqlV::Text("1970-01-01T00:00:00.000Z"@)
}

/// The call inserted the `db_meta` entry `key`, keeping one that exists.
pub open spec fn meta_call(c: Call, key: Seq<char>) -> bool {
    &&& c matches Call::Run { sql: s, args: a, done: Some(_) }
    &&& s == META_SEED@ && a.len() == 2 && a[0] == SqlV::Text(key)
}

/// From position `from` on, the journal seeded the database identity, the
/// schema version `"3"` and the creation time.
pub open spec fn meta_seeded(log: Seq<Call>, from: int) -> bool {
    &&& exists|k: int| from <= k < log.len() && meta_call(#[trigger] log[k], "db_uuid"@)
    &&& exists|k: int| from <= k < log.len() && meta_call(#[trigger] log[k], "schema_version"@)
        && log[k]->Run_args[1] == SqlV::Text("3"@)
    &&& exists|k: int| from <= k < log.len() && meta_call(#[trigger] log[k], "created_at"@)
}

/// Seeds the default bank unless a tombstone says it was deleted elsewhere.
pub fn seed_default_bank(db: &mut Db) -> (r: Result<(), String>)
    ensures
        grew(old(db).log@, final(db).log@),
        r is Ok ==> bank_seeded(final(db).log@, old(db).log@.len() as int),
{
    let ghost at = db.log@.len();
    let args = vec![text(default_bank())];
    assert(args_view(args@) =~= seq![SqlV::Text("bank_default"@)]);
    let tombstoned = query_exists(db, DEFAULT_TOMB, &args)?;
    if tombstoned {
        assert(tomb_checked(db.log@, at as int));
        return Ok(());
    }
    let ghost l1 = db.log@;
    let now = now_iso()?;
    match db_execute(db, SEED_BANK, &vec![text(default_bank()), text(seed_epoch()), SqlValue::Text(now)]) {
        Ok(_) => {
            assert(seed_bank_call(db.log@[at + 1int]));
            assert(db.log@[at as int] == l1[at as int]);
            assert(tomb_checked(db.log@, at as int));
            Ok(())
        },
        Err(e) => Err(cat("seed default bank failed: ", &e)),
    }
}

/// Inserts one `db_meta` entry unless it exists.
fn seed_meta_key(db: &mut Db, key: &str, value: String) -> (r: Result<(), String>)
    ensures
        grew(old(db).log@, final(db).log@),
        final(db).log@.len() == old(db).log@.len() + 1,
        r is Ok ==> meta_call(final(db).log@.last(), key@) && final(db).log@.last()->Run_args[1] == SqlV::Text(value@),
{
    match db_execute(db, META_SEED, &vec![text(key), SqlValue::Text(value)]) {
        Ok(_) => Ok(()),
        Err(e) => Err(cat("seed db_meta failed: ", &e)),
    }
}

/// Seeds the database identity, schema version and creation time, keeping
/// any that exist.
pub fn seed_db_meta(db: &mut Db) -> (r: Result<(), String>)
    ensures
        grew(old(db).log@, final(db).log@),
        r is Ok ==> meta_seeded(final(db).log@, old(db).log@.len() as int),
{
    let ghost at = db.log@.len();
    let now = now_iso()?;
    seed_meta_key(db, "db_uuid", generate_id())?;
    let ghost l1 = db.log@;
    seed_meta_key(db, "schema_version", schema_version().to_string())?;
    let ghost l2 = db.log@;
    seed_meta_key(db, "created_at", now)?;
    proof {
        assert(db.log@[l1.len() - 1] == l1.last());
        assert(db.log@[l2.len() - 1] == l2.last());
        assert(meta_call(db.log@[l1.len() - 1], "db_uuid"@));
        assert(meta_call(db.log@[l2.len() - 1], "schema_version"@));
        assert(meta_call(db.log@[db.log@.len() - 1], "created_at"@));
    }
    Ok(())
}

pub fn table_exists(db: &mut Db, name: &str) -> (r: Result<bool, String>)
    ensures
        grew(old(db).log@, final(db).log@),
{
    let n = query_int(
        db,
        "SELECT COUNT(*) FROM sqlite_master WHERE type='table' AND name=?1",
        &vec![text(name)],
    )?;
    Ok(n > 0)
}

pub fn has_column(db: &mut Db, table: &str, column: &str) -> (r: Result<bool, String>)
    ensures
        grew(old(db).log@, final(db).log@),
{
    let sql = cat3("SELECT COUNT(*) FROM pragma_table_info('", table, "') WHERE name = ?1");
    let n = query_int(db, sql.as_str(), &vec![text(column)])?;
    Ok(n > 0)
}

/// A store from before the sync columns (a `banks` table lacking any of
/// them) has its tables dropped, to be rebuilt; images stay registered.
pub fn rebuild_if_legacy(db: &mut Db) -> (r: Result<(), String>)
    ensures
        grew(old(db).log@, final(db).log@),
{
    if !table_exists(db, "banks")? {
        return Ok(());
    }
    let v3_ok = has_column(db, "banks", "synced_at")? && has_column(db, "questions", "synced_at")?
        && has_column(db, "practice_records", "synced_at")? && has_column(
        db,
        "review_state",
        "updated_at",
    )? && has_column(db, "wrong_dismiss", "is_dismissed")?;
    if v3_ok {
        return Ok(());
    }
    match db_batch(
        db,
        "PRAGMA foreign_keys=OFF;
         DROP TABLE IF EXISTS banks;
         DROP TABLE IF EXISTS questions;
         DROP TABLE IF EXISTS practice_records;
         DROP TABLE IF EXISTS review_state;
         DROP TABLE IF EXISTS wrong_dismiss;
         DROP TABLE IF EXISTS delete_log;
         DROP TABLE IF EXISTS app_settings;
         DROP TABLE IF EXISTS db_meta;
         PRAGMA foreign_keys=ON;",
    ) {
        Ok(()) => Ok(()),
        Err(e) => Err(cat("legacy schema rebuild failed: ", &e)),
    }
}

/// Creates the schema and seeds it; safe to run on every start.
pub fn init_schema(db: &mut Db) -> (r: Result<(), String>)
    ensures
        grew(old(db).log@, final(db).log@),
        r is Ok ==> exists|k: int| old(db).log@.len() <= k < final(db).log@.len()
            && #[trigger] final(db).log@[k] == (Call::Batch { sql: MIGRATIONS@ }),
        r is Ok ==> bank_seeded(final(db).log@, old(db).log@.len() as int),
        r is Ok ==> meta_seeded(final(db).log@, old(db).log@.len() as int),
{
    let ghost at = db.log@.len();
    rebuild_if_legacy(db)?;
    let ghost k = db.log@.len();
    match db_batch(db, migrations()) {
        Ok(()) => {},
        Err(e) => {
            return Err(cat("schema init failed: ", &e));
        },
    }
    let ghost l1 = db.log@;
    seed_default_bank(db)?;
    let ghost l2 = db.log@;
    seed_db_meta(db)?;
    proof {
        assert(db.log@[k as int] == l1[k as int]);
        lemma_bank_seeded_grew(l2, db.log@, l1.len() as int, at as int);
    }
    Ok(())
}

/// A seeding the journal shows stays in its continuations.
proof fn lemma_bank_seeded_grew(a: Seq<Call>, b: Seq<Call>, at: int, from: int)
    requires
        grew(a, b),
        0 <= from <= at,
        bank_seeded(a, at),
    ensures
        bank_seeded(b, from),
{
    let k = choose|k: int| at <= k < a.len() && #[trigger] tomb_checked(a, k);
    assert(b[k] == a[k]);
    if let Call::Read { rows: Some(rs), .. } = a[k] {
        if rs.len() == 0 {
            let j = choose|j: int| k < j < a.len() && seed_bank_call(#[trigger] a[j]);
            assert(b[j] == a[j]);
        }
    }
    assert(tomb_checked(b, k));
}

} // verus!
