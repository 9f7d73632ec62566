use qbank::db::Db;
use qbank::json::Json;
use qbank::schema::init_schema;
use rusqlite::Connection;
use serde_json::Value;

fn val(text: &str) -> Value {
    serde_json::from_str(text).unwrap()
}

fn to_json(v: &Value) -> Json {
    Json::parse(&v.to_string()).unwrap()
}

fn to_value(j: &Json) -> Value {
    serde_json::from_str(&j.to_text()).unwrap()
}

fn sample_question() -> Value {
    val(r#"{
        "id": "q_test_1",
        "type": "single",
        "version": 2,
        "difficulty": 2,
        "score": 5,
        "status": "published",
        "stem": {"type": "doc", "content": [{"type": "paragraph", "content": [{"type": "text", "text": "1+1=?"}]}]},
        "options": [
            {"id": "o1", "content": {"type": "doc", "content": [{"type": "paragraph", "content": [{"type": "text", "text": "2"}]}]}},
            {"id": "o2", "content": {"type": "doc", "content": [{"type": "paragraph", "content": [{"type": "text", "text": "3"}]}]}}
        ],
        "answer": {"ids": ["o1"]},
        "analysis": null,
        "plain_text": "1+1=? 2 3",
        "created_at": "2026-09-10T12:00:00.000Z",
        "updated_at": "2026-09-10T12:00:00.000Z"
    }"#)
}

fn test_conn() -> Connection {
    let conn = Connection::open_in_memory().unwrap();
    conn.execute_batch("PRAGMA foreign_keys=ON;").unwrap();
    init_schema(&mut Db::new(&conn)).unwrap();
    conn
}

fn insert_q(conn: &Connection, q: &Value) {
    qbank::questions::insert_question(&mut Db::new(conn), &to_json(q)).unwrap();
}

fn fetch_q(conn: &Connection, id: &str) -> Option<Value> {
    qbank::questions::fetch_question(&mut Db::new(conn), id).unwrap().map(|q| to_value(&q))
}

fn fetch_b(conn: &Connection, id: &str) -> Option<Value> {
    qbank::banks::fetch_bank(&mut Db::new(conn), id).unwrap().map(|b| to_value(&b))
}

fn count(conn: &Connection, sql: &str) -> i64 {
    conn.query_row(sql, [], |r| r.get(0)).unwrap()
}
use qbank::banks::{banks_create_impl, banks_list_impl, banks_remove_impl, banks_update_impl};
use qbank::questions::{questions_list_impl, questions_create_impl, questions_update_impl, import_questions_impl, query_questions, select_fields, select_fields_q, upsert_question};
use qbank::practice::{practice_pool_impl, review_due_impl, review_stats_impl, records_overview_impl, wrong_list_impl, dismiss_wrong, undismiss_wrong, record_answer_impl, RecordItem, FsrsCard, fsrs_upsert, validate_fsrs_card};
use qbank::settings::{settings_get_impl, settings_set_impl, SettingItem};
use qbank::schema::{migrations, seed_default_bank, seed_epoch, has_column, table_exists};
use qbank::backup::{build_export_doc, import_dbjson_impl};
use qbank::ids::generate_id;
use qbank::db::SqlValue;
use qbank::json::ok;

fn j_str(v: &Value, k: &str) -> String {
    v[k].as_str().unwrap().to_string()
}

fn vals(v: Vec<Json>) -> Vec<Value> {
    v.iter().map(to_value).collect()
}

fn create_bank(conn: &Connection, name: &str, desc: Option<&str>) -> Value {
    to_value(&banks_create_impl(&mut Db::new(conn), name, desc).unwrap())
}

fn list_banks(conn: &Connection) -> Vec<Value> {
    vals(banks_list_impl(&mut Db::new(conn)).unwrap())
}

fn qlist(conn: &Connection, query: Option<String>, t: Option<String>, bank: Option<String>, limit: Option<u64>, offset: Option<u64>, summary: bool) -> Value {
    to_value(&questions_list_impl(&mut Db::new(conn), query, t, bank, limit, offset, summary).unwrap())
}

fn pool(conn: &Connection, limit: Option<u64>, t: Option<String>, bank: Option<String>, ids: Option<Vec<String>>) -> Vec<Value> {
    vals(practice_pool_impl(&mut Db::new(conn), limit, t, bank, ids).unwrap())
}

fn due(conn: &Connection, limit: Option<u64>, bank: Option<String>) -> Vec<Value> {
    vals(review_due_impl(&mut Db::new(conn), limit, bank).unwrap())
}

fn stats(conn: &Connection, bank: Option<String>) -> Value {
    to_value(&review_stats_impl(&mut Db::new(conn), bank).unwrap())
}

fn wrong(conn: &Connection, bank: Option<String>, t: Option<String>, limit: Option<u64>, offset: Option<u64>, leave: Option<u64>) -> Value {
    to_value(&wrong_list_impl(&mut Db::new(conn), bank, t, limit, offset, leave).unwrap())
}

fn sample_fsrs_card() -> FsrsCard {
    FsrsCard {
        stability: "2.5".to_string(),
        difficulty: "5.0".to_string(),
        reps: 1,
        lapses: 0,
        state: 2,
        learning_steps: 0,
        scheduled_days: "3.0".to_string(),
        due_at: "2026-09-13T12:00:00.000Z".to_string(),
        last_reviewed_at: Some("2026-09-10T12:00:00.000Z".to_string()),
        last_result: Some("good".to_string()),
    }
}

fn clone_card(c: &FsrsCard) -> FsrsCard {
    FsrsCard {
        stability: c.stability.clone(),
        difficulty: c.difficulty.clone(),
        reps: c.reps,
        lapses: c.lapses,
        state: c.state,
        learning_steps: c.learning_steps,
        scheduled_days: c.scheduled_days.clone(),
        due_at: c.due_at.clone(),
        last_reviewed_at: c.last_reviewed_at.clone(),
        last_result: c.last_result.clone(),
    }
}

fn record(conn: &Connection, items: Vec<RecordItem>) -> Result<Value, String> {
    record_answer_impl(&mut Db::new(conn), &items).map(|v| to_value(&v))
}

fn raw_conn() -> Connection {
    let conn = Connection::open_in_memory().unwrap();
    conn.execute_batch("PRAGMA foreign_keys=ON;").unwrap();
    conn
}

// ---------------------------------------------------------------- mod

fn check_generate_id_shape() {
    let id = generate_id();
    let parsed = uuid::Uuid::parse_str(&id).unwrap();
    assert_eq!(parsed.get_version(), Some(uuid::Version::SortRand));
    let id2 = generate_id();
    assert_ne!(id, id2);
}

#[test]
fn mod_generate_id_shape() {
    check_generate_id_shape();
}

#[test]
fn db_generate_id_shape() {
    check_generate_id_shape();
}

fn check_command_envelopes_wrap_impl_results() {
    let conn = test_conn();
    let st = stats(&conn, None);
    assert!(st.get("total").is_some());
    assert!(st.get("by_type").is_some());
    assert!(st.get("records_7d").is_some());
    let days = st["records_7d"].as_array().unwrap();
    assert_eq!(days.len(), 7);
    let today = chrono::Utc::now().date_naive().format("%Y-%m-%d").to_string();
    assert_eq!(days[6]["date"], Value::from(today));
    assert_eq!(
        days[0]["date"],
        Value::from((chrono::Utc::now().date_naive() - chrono::Duration::days(6)).format("%Y-%m-%d").to_string())
    );
    let wrapped = to_value(&ok(to_json(&st)).unwrap());
    assert_eq!(wrapped["success"], Value::from(true));
    assert!(wrapped.get("data").is_some());
    let q = sample_question();
    let created = to_value(&ok(questions_create_impl(&mut Db::new(&conn), to_json(&q)).unwrap()).unwrap());
    assert_eq!(created["success"], Value::from(true));
    assert!(created["data"]["id"].is_string());
}

#[test]
fn mod_command_envelopes_wrap_impl_results() {
    check_command_envelopes_wrap_impl_results();
}

#[test]
fn db_command_envelopes_wrap_impl_results() {
    check_command_envelopes_wrap_impl_results();
}

fn check_filters_by_bank_across_commands() {
    let conn = test_conn();
    let b2 = create_bank(&conn, "题库B", None);
    let bid = j_str(&b2, "id");
    let mut qa = sample_question();
    qa["bank_id"] = Value::from("bank_default");
    let mut qb = sample_question();
    qb["id"] = Value::from("q_b_1");
    qb["bank_id"] = Value::from(bid.clone());
    insert_q(&conn, &qa);
    insert_q(&conn, &qb);

    let all = qlist(&conn, None, None, None, None, None, false);
    assert_eq!(all["total"], 2);
    assert_eq!(all["items"].as_array().unwrap().len(), 2);
    let in_b = qlist(&conn, None, None, Some(bid.clone()), None, None, false);
    assert_eq!(in_b["total"], 1);
    assert_eq!(in_b["items"][0]["id"], "q_b_1");
    assert_eq!(in_b["items"][0]["bank_id"], Value::from(bid.clone()));
    let in_default = qlist(&conn, None, None, Some("bank_default".to_string()), None, None, false);
    assert_eq!(in_default["total"], 1);
    assert_eq!(in_default["items"][0]["id"], "q_test_1");
    let as_all = qlist(&conn, None, None, Some(String::new()), None, None, false);
    assert_eq!(as_all["total"], 2);
    let p1 = qlist(&conn, None, None, None, Some(1), Some(0), false);
    let p2 = qlist(&conn, None, None, None, Some(1), Some(1), false);
    assert_eq!(p1["total"], 2);
    assert_eq!(p1["items"].as_array().unwrap().len(), 1);
    assert_eq!(p2["items"].as_array().unwrap().len(), 1);
    assert_ne!(p1["items"][0]["id"], p2["items"][0]["id"]);
    let p3 = qlist(&conn, None, None, None, Some(1), Some(2), false);
    assert_eq!(p3["total"], 2);
    assert_eq!(p3["items"].as_array().unwrap().len(), 0);

    let pool_b = pool(&conn, Some(20), None, Some(bid.clone()), None);
    assert_eq!(pool_b.len(), 1);
    assert_eq!(pool_b[0]["id"], "q_b_1");
    let pool_default = pool(&conn, Some(20), None, Some("bank_default".to_string()), None);
    assert_eq!(pool_default.len(), 1);
    assert_eq!(pool_default[0]["id"], "q_test_1");
    assert_eq!(pool(&conn, Some(20), None, None, None).len(), 2);
    let by_ids = pool(&conn, None, None, None, Some(vec!["q_b_1".to_string(), "q_nope".to_string(), "q_test_1".to_string()]));
    assert_eq!(by_ids.len(), 2);
    assert_eq!(by_ids[0]["id"], "q_b_1");
    assert_eq!(by_ids[1]["id"], "q_test_1");

    conn.execute_batch(
        "INSERT INTO review_state (question_id, due_at, updated_at) VALUES
         ('q_test_1', '2000-01-01T00:00:00.000Z', '2000-01-01T00:00:00.000Z'),
         ('q_b_1', '2000-01-01T00:00:00.000Z', '2000-01-01T00:00:00.000Z');",
    )
    .unwrap();
    let due_b = due(&conn, Some(50), Some(bid.clone()));
    assert_eq!(due_b.len(), 1);
    assert_eq!(due_b[0]["id"], "q_b_1");
    assert_eq!(due(&conn, Some(50), None).len(), 2);

    let stats_b = stats(&conn, Some(bid.clone()));
    assert_eq!(stats_b["total"], 1);
    assert_eq!(stats_b["due_total"], 1);
    let stats_all = stats(&conn, None);
    assert_eq!(stats_all["total"], 2);
    assert_eq!(stats_all["due_total"], 2);

    conn.execute(
        "INSERT INTO practice_records (id, question_id, mode, grade, correct, answered_at, synced_at)
         VALUES ('rec_b_1', 'q_b_1', 'practice', 'good', 1, '2026-09-10T12:00:00.000Z', '2026-09-10T12:00:00.000Z')",
        [],
    )
    .unwrap();
    let stats_b2 = stats(&conn, Some(bid));
    assert_eq!(stats_b2["practiced_total"], 1);
    assert_eq!(stats_b2["correct_rate"], val("100.0"));
    let stats_def = stats(&conn, Some("bank_default".to_string()));
    assert_eq!(stats_def["practiced_total"], 0);
    assert_eq!(stats_def["correct_rate"], Value::Null);
}

#[test]
fn mod_filters_by_bank_across_commands() {
    check_filters_by_bank_across_commands();
}

#[test]
fn db_filters_by_bank_across_commands() {
    check_filters_by_bank_across_commands();
}

// ---------------------------------------------------------------- schema

fn check_seed_is_conditional_and_epoch() {
    let conn = test_conn();
    let (cu, uu): (String, String) = conn
        .query_row("SELECT created_at, updated_at FROM banks WHERE id = 'bank_default'", [], |r| Ok((r.get(0)?, r.get(1)?)))
        .unwrap();
    assert_eq!(cu, seed_epoch());
    assert_eq!(uu, seed_epoch());
    for k in ["db_uuid", "schema_version", "created_at"] {
        let v: String = conn.query_row("SELECT value FROM db_meta WHERE key = ?1", [k], |r| r.get(0)).unwrap();
        assert!(!v.is_empty(), "missing meta {k}");
    }
    let ver: String = conn.query_row("SELECT value FROM db_meta WHERE key = 'schema_version'", [], |r| r.get(0)).unwrap();
    assert_eq!(ver, "3");
}

#[test]
fn schema_seed_is_conditional_and_epoch() {
    check_seed_is_conditional_and_epoch();
}

#[test]
fn db_seed_is_conditional_and_epoch() {
    check_seed_is_conditional_and_epoch();
}

fn check_legacy_v2_db_auto_rebuilt_on_init() {
    let conn = raw_conn();
    conn.execute_batch(
        "CREATE TABLE banks (
            id TEXT PRIMARY KEY, name TEXT NOT NULL, description TEXT,
            created_at TEXT NOT NULL, updated_at TEXT NOT NULL
        );
        CREATE TABLE questions (
            id TEXT PRIMARY KEY,
            bank_id TEXT REFERENCES banks(id) ON DELETE CASCADE,
            type TEXT NOT NULL, version INTEGER NOT NULL DEFAULT 2,
            difficulty INTEGER NOT NULL DEFAULT 2, score REAL,
            status TEXT NOT NULL DEFAULT 'published', stem_json TEXT NOT NULL,
            options_json TEXT, answer_json TEXT, analysis_json TEXT,
            children_json TEXT, plain_text TEXT NOT NULL DEFAULT '',
            created_at TEXT NOT NULL, updated_at TEXT NOT NULL
        );
        CREATE TABLE practice_records (
            id TEXT PRIMARY KEY,
            question_id TEXT NOT NULL REFERENCES questions(id) ON DELETE CASCADE,
            mode TEXT NOT NULL, grade TEXT NOT NULL, correct INTEGER NOT NULL,
            answered_at TEXT NOT NULL, elapsed_ms INTEGER, detail_json TEXT, fsrs_log TEXT
        );
        CREATE TABLE review_state (
            question_id TEXT PRIMARY KEY REFERENCES questions(id) ON DELETE CASCADE,
            due_at TEXT NOT NULL, stability REAL NOT NULL DEFAULT 0,
            difficulty REAL NOT NULL DEFAULT 0, reps INTEGER NOT NULL DEFAULT 0,
            lapses INTEGER NOT NULL DEFAULT 0, state INTEGER NOT NULL DEFAULT 0,
            learning_steps INTEGER NOT NULL DEFAULT 0, scheduled_days REAL NOT NULL DEFAULT 0,
            last_result TEXT, last_reviewed_at TEXT
        );
        CREATE TABLE wrong_dismiss (
            question_id TEXT PRIMARY KEY REFERENCES questions(id) ON DELETE CASCADE,
            dismissed_at TEXT NOT NULL
        );
        CREATE TABLE assets (
            sha TEXT PRIMARY KEY, mime TEXT NOT NULL, size INTEGER NOT NULL,
            width INTEGER, height INTEGER, created_at TEXT NOT NULL
        );
        INSERT INTO banks (id, name, created_at, updated_at)
          VALUES ('old_bank', '旧库', '2026-09-01T00:00:00.000Z', '2026-09-01T00:00:00.000Z');
        INSERT INTO questions (id, bank_id, type, stem_json, plain_text, created_at, updated_at)
          VALUES ('old_q', 'old_bank', 'single', '{}', '旧题', '2026-09-01T00:00:00.000Z', '2026-09-01T00:00:00.000Z');
        INSERT INTO assets (sha, mime, size, created_at)
          VALUES ('aabb', 'image/png', 70, '2026-09-01T00:00:00.000Z');",
    )
    .unwrap();
    init_schema(&mut Db::new(&conn)).unwrap();
    assert!(has_column(&mut Db::new(&conn), "banks", "synced_at").unwrap());
    assert!(has_column(&mut Db::new(&conn), "review_state", "updated_at").unwrap());
    assert!(has_column(&mut Db::new(&conn), "wrong_dismiss", "is_dismissed").unwrap());
    assert!(table_exists(&mut Db::new(&conn), "delete_log").unwrap());
    assert!(table_exists(&mut Db::new(&conn), "app_settings").unwrap());
    assert!(table_exists(&mut Db::new(&conn), "db_meta").unwrap());
    assert_eq!(count(&conn, "SELECT COUNT(*) FROM questions WHERE id = 'old_q'"), 0);
    let seed: (String, String) = conn
        .query_row("SELECT created_at, updated_at FROM banks WHERE id = 'bank_default'", [], |r| Ok((r.get(0)?, r.get(1)?)))
        .unwrap();
    assert_eq!(seed.0, seed_epoch());
    assert_eq!(count(&conn, "SELECT COUNT(*) FROM assets"), 1);
}

#[test]
fn schema_legacy_v2_db_auto_rebuilt_on_init() {
    check_legacy_v2_db_auto_rebuilt_on_init();
}

#[test]
fn db_legacy_v2_db_auto_rebuilt_on_init() {
    check_legacy_v2_db_auto_rebuilt_on_init();
}

fn check_fresh_and_v3_dbs_pass_guard_untouched() {
    let conn = raw_conn();
    init_schema(&mut Db::new(&conn)).unwrap();
    assert_eq!(count(&conn, "SELECT COUNT(*) FROM banks WHERE id = 'bank_default'"), 1);
    let mut q = sample_question();
    q["id"] = Value::from("q_keep");
    q["bank_id"] = Value::from("bank_default");
    insert_q(&conn, &q);
    init_schema(&mut Db::new(&conn)).unwrap();
    assert_eq!(count(&conn, "SELECT COUNT(*) FROM questions WHERE id = 'q_keep'"), 1);
}

#[test]
fn schema_fresh_and_v3_dbs_pass_guard_untouched() {
    check_fresh_and_v3_dbs_pass_guard_untouched();
}

#[test]
fn db_fresh_and_v3_dbs_pass_guard_untouched() {
    check_fresh_and_v3_dbs_pass_guard_untouched();
}

fn check_seed_skipped_when_default_tombstoned() {
    let conn = raw_conn();
    conn.execute_batch(migrations()).unwrap();
    conn.execute(
        "INSERT INTO delete_log (id, entity_type, entity_id, bank_id, deleted_at, actor, synced_at)
         VALUES ('t1', 'bank', 'bank_default', 'bank_default', '2026-09-01T00:00:00.000Z', 'd', '2026-09-01T00:00:00.000Z')",
        [],
    )
    .unwrap();
    seed_default_bank(&mut Db::new(&conn)).unwrap();
    assert_eq!(count(&conn, "SELECT COUNT(*) FROM banks WHERE id = 'bank_default'"), 0);
}

#[test]
fn schema_seed_skipped_when_default_tombstoned() {
    check_seed_skipped_when_default_tombstoned();
}

#[test]
fn db_seed_skipped_when_default_tombstoned() {
    check_seed_skipped_when_default_tombstoned();
}

// ---------------------------------------------------------------- banks

fn check_banks_crud_and_last_bank_guard() {
    let conn = test_conn();
    let list = list_banks(&conn);
    assert_eq!(list.len(), 1);
    assert_eq!(list[0]["id"], "bank_default");
    assert_eq!(list[0]["name"], "默认题库");
    assert_eq!(list[0]["question_count"], 0);

    let b1 = create_bank(&conn, "  数学题库  ", None);
    let b2 = create_bank(&conn, "英语题库", Some("CET-4"));
    assert!(uuid::Uuid::parse_str(b1["id"].as_str().unwrap()).is_ok());
    assert_eq!(b1["name"], "数学题库");
    assert_eq!(b2["description"], "CET-4");
    assert_eq!(b1["question_count"], 0);
    assert_eq!(list_banks(&conn).len(), 3);

    let err = banks_create_impl(&mut Db::new(&conn), "   ", None).unwrap_err();
    assert_eq!(err, "题库名称不能为空");

    let b1id = j_str(&b1, "id");
    let upd = to_value(&banks_update_impl(&mut Db::new(&conn), &b1id, Some(" 高等数学 "), Some("线代")).unwrap());
    assert_eq!(upd["name"], "高等数学");
    assert_eq!(upd["description"], "线代");
    let err = banks_update_impl(&mut Db::new(&conn), "bank_nope", Some("x"), None).unwrap_err();
    assert_eq!(err, "Not Found");
    let err = banks_update_impl(&mut Db::new(&conn), &b1id, Some("  "), None).unwrap_err();
    assert_eq!(err, "题库名称不能为空");

    let mut q = sample_question();
    q["id"] = Value::from("q_bank_1");
    q["bank_id"] = b1["id"].clone();
    insert_q(&conn, &q);
    let list2 = list_banks(&conn);
    let b1row = list2.iter().find(|b| b["id"] == b1["id"]).unwrap();
    assert_eq!(b1row["question_count"], 1);

    let removed = to_value(&banks_remove_impl(&mut Db::new(&conn), &b1id, None).unwrap());
    assert_eq!(removed["id"], b1["id"]);
    assert!(fetch_q(&conn, "q_bank_1").is_none());
    assert_eq!(list_banks(&conn).len(), 2);

    banks_remove_impl(&mut Db::new(&conn), "bank_default", None).unwrap();
    let rest = list_banks(&conn);
    assert_eq!(rest.len(), 1);
    assert_eq!(rest[0]["id"], b2["id"]);

    let err = banks_remove_impl(&mut Db::new(&conn), b2["id"].as_str().unwrap(), None).unwrap_err();
    assert_eq!(err, "至少保留一个题库");
    let err = banks_remove_impl(&mut Db::new(&conn), "bank_nope", None).unwrap_err();
    assert_eq!(err, "Not Found");
}

#[test]
fn banks_banks_crud_and_last_bank_guard() {
    check_banks_crud_and_last_bank_guard();
}

#[test]
fn db_banks_crud_and_last_bank_guard() {
    check_banks_crud_and_last_bank_guard();
}

fn check_remove_bank_cascades_questions_records_and_review() {
    let conn = test_conn();
    let b2 = create_bank(&conn, "题库C", None);
    let bid = j_str(&b2, "id");
    let mut qb = sample_question();
    qb["id"] = Value::from("q_c_1");
    qb["bank_id"] = Value::from(bid.clone());
    insert_q(&conn, &qb);
    conn.execute(
        "INSERT INTO practice_records (id, question_id, mode, grade, correct, answered_at, synced_at)
         VALUES ('rec_wc_1', 'q_c_1', 'review', 'good', 1, '2026-09-10T12:00:00.000Z', '2026-09-10T12:00:00.000Z')",
        [],
    )
    .unwrap();
    conn.execute(
        "INSERT INTO review_state (question_id, due_at, updated_at) VALUES ('q_c_1', '2000-01-01T00:00:00.000Z', '2000-01-01T00:00:00.000Z')",
        [],
    )
    .unwrap();
    banks_remove_impl(&mut Db::new(&conn), &bid, None).unwrap();
    assert!(fetch_q(&conn, "q_c_1").is_none());
    assert_eq!(count(&conn, "SELECT COUNT(*) FROM practice_records"), 0);
    assert_eq!(count(&conn, "SELECT COUNT(*) FROM review_state"), 0);
    assert_eq!(list_banks(&conn).len(), 1);
}

#[test]
fn banks_remove_bank_cascades_questions_records_and_review() {
    check_remove_bank_cascades_questions_records_and_review();
}

#[test]
fn db_remove_bank_cascades_questions_records_and_review() {
    check_remove_bank_cascades_questions_records_and_review();
}

// ---------------------------------------------------------------- settings

fn check_settings_roundtrip_and_bad_json_rejected() {
    let conn = test_conn();
    let res = to_value(&settings_set_impl(&mut Db::new(&conn), &vec![SettingItem { key: "fsrs.requestRetention".to_string(), value_json: "0.9".to_string() }]).unwrap());
    assert_eq!(res["updated"], val(r#"["fsrs.requestRetention"]"#));
    let items = vals(settings_get_impl(&mut Db::new(&conn)).unwrap());
    assert_eq!(items.len(), 1);
    assert_eq!(items[0]["value_json"], Value::from("0.9"));
    assert!(settings_set_impl(&mut Db::new(&conn), &vec![SettingItem { key: "bad".to_string(), value_json: "{oops".to_string() }]).is_err());
    assert!(settings_set_impl(&mut Db::new(&conn), &vec![SettingItem { key: "  ".to_string(), value_json: "1".to_string() }]).is_err());
}

#[test]
fn settings_settings_roundtrip_and_bad_json_rejected() {
    check_settings_roundtrip_and_bad_json_rejected();
}

#[test]
fn db_settings_roundtrip_and_bad_json_rejected() {
    check_settings_roundtrip_and_bad_json_rejected();
}

// ---------------------------------------------------------------- backup

fn check_export_v4_shape_and_import_v2_v3_v4() {
    let conn = test_conn();
    let b2 = create_bank(&conn, "题库D", Some("desc d"));
    let bid = j_str(&b2, "id");
    let mut qa = sample_question();
    qa["bank_id"] = Value::from("bank_default");
    let mut qb = sample_question();
    qb["id"] = Value::from("q_d_1");
    qb["bank_id"] = Value::from(bid.clone());
    insert_q(&conn, &qa);
    insert_q(&conn, &qb);

    let doc = to_value(&build_export_doc(&mut Db::new(&conn)).unwrap());
    assert_eq!(doc["version"], 4);
    assert!(doc["db_uuid"].as_str().is_some_and(|s| !s.is_empty()));
    assert!(doc["exported_at"].as_str().is_some());
    assert!(doc["settings"].as_array().is_some());
    assert!(doc["delete_log"].as_array().is_some());
    let banks = doc["banks"].as_array().unwrap();
    assert_eq!(banks.len(), 2);
    let default = banks.iter().find(|b| b["id"] == "bank_default").unwrap();
    assert!(default.get("name").is_some());
    assert!(default.get("description").is_some());
    let questions = doc["questions"].as_array().unwrap();
    assert_eq!(questions.len(), 2);
    assert!(questions.iter().all(|q| q.get("bank_id").is_some()));

    let conn2 = raw_conn();
    init_schema(&mut Db::new(&conn2)).unwrap();
    let v2doc = val(r#"{
        "version": 2,
        "questions": [{
            "id": "q_imp_2",
            "type": "single",
            "stem": {"type": "doc", "content": [{"type": "paragraph", "content": [{"type": "text", "text": "v2题"}]}]},
            "created_at": "2026-09-01T00:00:00.000Z",
            "updated_at": "2026-09-01T00:00:00.000Z"
        }]
    }"#);
    let res2 = to_value(&import_dbjson_impl(&mut Db::new(&conn2), &serde_json::to_string(&v2doc).unwrap()).unwrap());
    assert_eq!(res2["imported"], 1);
    assert_eq!(fetch_q(&conn2, "q_imp_2").unwrap()["bank_id"], "bank_default");
    let synced: String = conn2.query_row("SELECT synced_at FROM questions WHERE id = 'q_imp_2'", [], |r| r.get(0)).unwrap();
    assert!(!synced.is_empty());
    let bsynced: String = conn2.query_row("SELECT synced_at FROM banks WHERE id = 'bank_default'", [], |r| r.get(0)).unwrap();
    assert!(!bsynced.is_empty());

    let conn3 = raw_conn();
    init_schema(&mut Db::new(&conn3)).unwrap();
    let mut v4doc = doc.clone();
    let mut evil = val(r#"{"entity_type": "question", "entity_id": "q_d_1", "deleted_at": "2026-09-18T00:00:00.000Z", "actor": "evil", "synced_at": "2026-09-18T00:00:00.000Z"}"#);
    evil["bank_id"] = Value::from(bid.clone());
    v4doc["delete_log"] = Value::Array(vec![evil]);
    let v3text = serde_json::to_string(&v4doc).unwrap();
    let res3 = to_value(&import_dbjson_impl(&mut Db::new(&conn3), &v3text).unwrap());
    assert_eq!(res3["imported"], 2);
    assert_eq!(res3["banks_imported"], 2);
    assert_eq!(fetch_q(&conn3, "q_d_1").unwrap()["bank_id"], Value::from(bid.clone()));
    assert!(fetch_q(&conn3, "q_d_1").is_some());
    assert_eq!(count(&conn3, "SELECT COUNT(*) FROM delete_log"), 0);

    let mut updated = doc;
    if let Some(bs) = updated.get_mut("banks").and_then(Value::as_array_mut) {
        for b in bs.iter_mut() {
            if b["id"] == Value::from(bid.clone()) {
                b["name"] = Value::from("题库D改名");
                b["description"] = Value::from("new desc");
            }
        }
    }
    let res4 = to_value(&import_dbjson_impl(&mut Db::new(&conn3), &serde_json::to_string(&updated).unwrap()).unwrap());
    assert_eq!(res4["banks_imported"], 2);
    let banks3 = list_banks(&conn3);
    assert_eq!(banks3.len(), 2);
    let renamed = banks3.iter().find(|b| b["id"] == Value::from(bid.clone())).unwrap();
    assert_eq!(renamed["name"], "题库D改名");
    assert_eq!(renamed["description"], "new desc");
}

#[test]
fn backup_export_v4_shape_and_import_v2_v3_v4() {
    check_export_v4_shape_and_import_v2_v3_v4();
}

#[test]
fn db_export_v4_shape_and_import_v2_v3_v4() {
    check_export_v4_shape_and_import_v2_v3_v4();
}
