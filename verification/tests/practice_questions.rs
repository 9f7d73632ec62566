use qbank::db::Db;
use qbank::json::Json;
use qbank::schema::init_schema;
use rusqlite::Connection;
use serde_json::Value;

fn val(text: &str) -> Value {
    serde_json::from_str(text).unwrap()
}

fn to_json(v: &Value) -> Json {
    Json::parse(&v.to_string()).unwrap()
}

fn to_value(j: &Json) -> Value {
    serde_json::from_str(&j.to_text()).unwrap()
}

fn sample_question() -> Value {
    val(r#"{
        "id": "q_test_1",
        "type": "single",
        "version": 2,
        "difficulty": 2,
        "score": 5,
        "status": "published",
        "stem": {"type": "doc", "content": [{"type": "paragraph", "content": [{"type": "text", "text": "1+1=?"}]}]},
        "options": [
            {"id": "o1", "content": {"type": "doc", "content": [{"type": "paragraph", "content": [{"type": "text", "text": "2"}]}]}},
            {"id": "o2", "content": {"type": "doc", "content": [{"type": "paragraph", "content": [{"type": "text", "text": "3"}]}]}}
        ],
        "answer": {"ids": ["o1"]},
        "analysis": null,
        "plain_text": "1+1=? 2 3",
        "created_at": "2026-09-10T12:00:00.000Z",
        "updated_at": "2026-09-10T12:00:00.000Z"
    }"#)
}

fn test_conn() -> Connection {
    let conn = Connection::open_in_memory().unwrap();
    conn.execute_batch("PRAGMA foreign_keys=ON;").unwrap();
    init_schema(&mut Db::new(&conn)).unwrap();
    conn
}

fn insert_q(conn: &Connection, q: &Value) {
    qbank::questions::insert_question(&mut Db::new(conn), &to_json(q)).unwrap();
}

fn fetch_q(conn: &Connection, id: &str) -> Option<Value> {
    qbank::questions::fetch_question(&mut Db::new(conn), id).unwrap().map(|q| to_value(&q))
}

fn fetch_b(conn: &Connection, id: &str) -> Option<Value> {
    qbank::banks::fetch_bank(&mut Db::new(conn), id).unwrap().map(|b| to_value(&b))
}

fn count(conn: &Connection, sql: &str) -> i64 {
    conn.query_row(sql, [], |r| r.get(0)).unwrap()
}
use qbank::banks::{banks_create_impl, banks_list_impl};
use qbank::questions::{questions_list_impl, questions_create_impl, questions_update_impl, import_questions_impl, query_questions, select_fields, select_fields_q, upsert_question};
use qbank::practice::{practice_pool_impl, review_due_impl, review_stats_impl, records_overview_impl, wrong_list_impl, dismiss_wrong, undismiss_wrong, record_answer_impl, RecordItem, FsrsCard, fsrs_upsert, validate_fsrs_card};
use qbank::schema::migrations;
use qbank::doc::{aggregated_plain_text, ensure_child_ids, plain_text_of_doc};
use qbank::ids::generate_id;
use qbank::db::SqlValue;

fn vals(v: Vec<Json>) -> Vec<Value> {
    v.iter().map(to_value).collect()
}

fn raw_conn() -> Connection {
    let conn = Connection::open_in_memory().unwrap();
    conn.execute_batch("PRAGMA foreign_keys=ON;").unwrap();
    conn
}

fn wrong(conn: &Connection, bank: Option<String>, t: Option<String>, limit: Option<u64>, offset: Option<u64>, leave: Option<u64>) -> Value {
    to_value(&wrong_list_impl(&mut Db::new(conn), bank, t, limit, offset, leave).unwrap())
}

fn sample_fsrs_card() -> FsrsCard {
    FsrsCard {
        stability: "2.5".to_string(),
        difficulty: "5.0".to_string(),
        reps: 1,
        lapses: 0,
        state: 2,
        learning_steps: 0,
        scheduled_days: "3.0".to_string(),
        due_at: "2026-09-13T12:00:00.000Z".to_string(),
        last_reviewed_at: Some("2026-09-10T12:00:00.000Z".to_string()),
        last_result: Some("good".to_string()),
    }
}

fn record(conn: &Connection, items: Vec<RecordItem>) -> Result<Value, String> {
    record_answer_impl(&mut Db::new(conn), &items).map(|v| to_value(&v))
}

fn insert_record(conn: &Connection, qid: &str, correct: i64, at: &str) {
    conn.execute(
        "INSERT INTO practice_records (id, question_id, mode, grade, correct, answered_at, synced_at) VALUES (?1, ?2, 'practice', 'good', ?3, ?4, ?4)",
        (generate_id(), qid, correct, at),
    )
    .unwrap();
}

// ---------------------------------------------------------------- documents

fn check_plain_text_extracts_doc_blocks() {
    let doc = to_json(&val(r#"{
        "type": "doc",
        "content": [
            {"type": "paragraph", "content": [
                {"type": "text", "text": "求 "},
                {"type": "inlineMath", "attrs": {"latex": "x=10"}},
                {"type": "text", "text": " 的值 "},
                {"type": "blank", "attrs": {"id": "b1"}}
            ]},
            {"type": "imageBlock", "attrs": {"src": "data:image/png;base64,xxx"}},
            {"type": "mathBlock", "attrs": {"latex": "E=mc^2"}}
        ]
    }"#));
    assert_eq!(plain_text_of_doc(&doc), "求  x=10  的值  ___   [图]   E=mc^2");
    assert_eq!(plain_text_of_doc(&Json::Null), "");
    assert_eq!(plain_text_of_doc(&to_json(&val(r#"{"type": "doc"}"#))), "");
}

#[test]
fn questions_plain_text_extracts_doc_blocks() {
    check_plain_text_extracts_doc_blocks();
}

#[test]
fn db_plain_text_extracts_doc_blocks() {
    check_plain_text_extracts_doc_blocks();
}

fn check_plain_text_aggregates_material_with_children() {
    let q = to_json(&val(r#"{
        "id": "m1", "type": "material", "difficulty": 3,
        "stem": {"type": "doc", "content": [{"type": "paragraph", "content": [{"type": "text", "text": "材料题干"}]}]},
        "children": [
            {"type": "single", "stem": {"type": "doc", "content": [{"type": "paragraph", "content": [{"type": "text", "text": "子题1"}]}]},
             "options": [{"content": {"type": "doc", "content": [{"type": "paragraph", "content": [{"type": "text", "text": "选项A"}]}]}}],
             "answer": {"ids": ["o1"]},
             "analysis": {"type": "doc", "content": [{"type": "paragraph", "content": [{"type": "text", "text": "解析1"}]}]}},
            {"type": "short", "stem": {"type": "doc", "content": [{"type": "paragraph", "content": [{"type": "text", "text": "子题2"}]}]},
             "answer": {"reference": {"type": "doc", "content": [{"type": "paragraph", "content": [{"type": "text", "text": "参考答案2"}]}]}}}
        ],
        "options": [{"content": {"type": "doc", "content": [{"type": "paragraph", "content": [{"type": "text", "text": "顶层选项不应出现"}]}]}}],
        "analysis": {"type": "doc", "content": [{"type": "paragraph", "content": [{"type": "text", "text": "顶层解析"}]}]}
    }"#));
    let s = aggregated_plain_text(&q);
    assert!(s.contains("材料题干"));
    assert!(s.contains("子题1"));
    assert!(s.contains("选项A"));
    assert!(s.contains("解析1"));
    assert!(s.contains("子题2"));
    assert!(s.contains("参考答案2"));
    assert!(s.contains("顶层解析"));
    assert!(!s.contains("顶层选项不应出现"));
    assert!(!s.contains("  "));
}

#[test]
fn questions_plain_text_aggregates_material_with_children() {
    check_plain_text_aggregates_material_with_children();
}

#[test]
fn db_plain_text_aggregates_material_with_children() {
    check_plain_text_aggregates_material_with_children();
}

fn check_plain_text_aggregates_non_material() {
    let q = to_json(&val(r#"{
        "id": "s1", "type": "short",
        "stem": {"type": "doc", "content": [{"type": "paragraph", "content": [{"type": "text", "text": "题干"}]}]},
        "options": null,
        "answer": {"reference": {"type": "doc", "content": [{"type": "paragraph", "content": [{"type": "text", "text": "参考答案"}]}]}},
        "analysis": null
    }"#));
    assert_eq!(aggregated_plain_text(&q), "题干 参考答案");
    assert_eq!(aggregated_plain_text(&to_json(&val(r#"{"type": "single"}"#))), "");
}

#[test]
fn questions_plain_text_aggregates_non_material() {
    check_plain_text_aggregates_non_material();
}

#[test]
fn db_plain_text_aggregates_non_material() {
    check_plain_text_aggregates_non_material();
}

fn check_ensure_child_ids_fills_missing_only() {
    let mut q = to_json(&val(r#"{"children": [{ "type": "single" }, { "type": "single", "id": "keep_me" }]}"#));
    ensure_child_ids(&mut q, "parent1");
    let q = to_value(&q);
    let ids: Vec<String> = q["children"].as_array().unwrap().iter().map(|c| c["id"].as_str().unwrap().to_string()).collect();
    assert_eq!(ids, vec!["parent1_c1", "keep_me"]);
}

#[test]
fn questions_ensure_child_ids_fills_missing_only() {
    check_ensure_child_ids_fills_missing_only();
}

#[test]
fn db_ensure_child_ids_fills_missing_only() {
    check_ensure_child_ids_fills_missing_only();
}

// ---------------------------------------------------------------- questions

fn check_import_questions_batches_with_dedup() {
    let conn = test_conn();
    let q = || {
        let mut v = sample_question();
        v.as_object_mut().unwrap().remove("id");
        v
    };
    let mut q1 = q();
    q1["stem"] = val(r#"{"type":"doc","content":[{"type":"paragraph","content":[{"type":"text","text":"批量一"}]}]}"#);
    let mut q2 = q();
    q2["stem"] = val(r#"{"type":"doc","content":[{"type":"paragraph","content":[{"type":"text","text":"批量二"}]}]}"#);
    let r = to_value(&import_questions_impl(&mut Db::new(&conn), vec![to_json(&q1), to_json(&q2)], Some("bank_default".to_string())).unwrap());
    assert_eq!(r["items"][0]["status"], "inserted");
    assert_eq!(r["items"][1]["status"], "inserted");
    assert!(r["batch_id"].as_str().unwrap().len() > 10);
    let r2 = to_value(
        &import_questions_impl(&mut Db::new(&conn), vec![to_json(&q1), to_json(&q2), to_json(&q2), to_json(&val("42"))], Some("bank_default".to_string())).unwrap(),
    );
    let st: Vec<&str> = r2["items"].as_array().unwrap().iter().map(|x| x["status"].as_str().unwrap()).collect();
    assert_eq!(st, vec!["duplicate", "duplicate", "duplicate", "error"]);
    assert!(import_questions_impl(&mut Db::new(&conn), vec![], Some("bank_nope".to_string())).is_err());
    let r3 = to_value(&import_questions_impl(&mut Db::new(&conn), vec![to_json(&q())], None).unwrap());
    assert_eq!(r3["items"][0]["status"], "inserted");
}

#[test]
fn questions_import_questions_batches_with_dedup() {
    check_import_questions_batches_with_dedup();
}

#[test]
fn db_import_questions_batches_with_dedup() {
    check_import_questions_batches_with_dedup();
}

fn qq(conn: &Connection, sql: &str, args: Vec<SqlValue>) -> Vec<Value> {
    vals(query_questions(&mut Db::new(conn), sql, &args).unwrap())
}

fn check_db_schema_insert_fetch_and_upsert() {
    let conn = raw_conn();
    conn.execute_batch(migrations()).unwrap();
    let q = sample_question();
    insert_q(&conn, &q);
    let fetched = fetch_q(&conn, "q_test_1").unwrap();
    assert_eq!(fetched["id"], "q_test_1");
    assert_eq!(fetched["score"], val("5.0"));
    assert_eq!(fetched["analysis"], Value::Null);
    assert_eq!(fetched["options"][0]["id"], "o1");
    assert_eq!(fetched["stem"]["content"][0]["content"][0]["text"], "1+1=?");

    let mut upd = q.clone();
    upd["score"] = Value::from(10);
    upd["created_at"] = Value::from("2000-01-01T00:00:00.000Z");
    upd["updated_at"] = Value::from("2026-09-11T00:00:00.000Z");
    upsert_question(&mut Db::new(&conn), &to_json(&upd)).unwrap();
    let after = fetch_q(&conn, "q_test_1").unwrap();
    assert_eq!(after["created_at"], "2026-09-10T12:00:00.000Z");
    assert_eq!(after["updated_at"], "2026-09-11T00:00:00.000Z");
    assert_eq!(after["score"], val("10.0"));

    let sql = format!(
        "SELECT {} FROM questions WHERE (?1 IS NULL OR plain_text LIKE '%'||?1||'%') AND (?2 IS NULL OR type = ?2) ORDER BY created_at DESC",
        select_fields()
    );
    assert_eq!(qq(&conn, &sql, vec![SqlValue::Null, SqlValue::Null]).len(), 1);
    assert_eq!(qq(&conn, &sql, vec![SqlValue::Text("1+1".to_string()), SqlValue::Text("single".to_string())]).len(), 1);
    assert_eq!(qq(&conn, &sql, vec![SqlValue::Text("zzz".to_string()), SqlValue::Null]).len(), 0);
    let pool_sql = format!("SELECT {} FROM questions WHERE (?1 IS NULL OR type = ?1) ORDER BY RANDOM() LIMIT ?2", select_fields());
    assert_eq!(qq(&conn, &pool_sql, vec![SqlValue::Text("single".to_string()), SqlValue::Int(10)]).len(), 1);
}

#[test]
fn questions_db_schema_insert_fetch_and_upsert() {
    check_db_schema_insert_fetch_and_upsert();
}

#[test]
fn db_db_schema_insert_fetch_and_upsert() {
    check_db_schema_insert_fetch_and_upsert();
}

fn check_questions_list_summary_omits_heavy_fields() {
    let conn = test_conn();
    let mut single = sample_question();
    single["analysis"] = val(r#"{"type": "doc", "content": [{"type": "paragraph", "content": [{"type": "text", "text": "长解析"}]}]}"#);
    insert_q(&conn, &single);
    let mut mat = sample_question();
    mat["id"] = Value::from("q_mat_1");
    mat["type"] = Value::from("material");
    mat["score"] = Value::Null;
    mat["children"] = val(r#"[
        {"id": "c1", "type": "single", "score": 2, "stem": {"type": "doc", "content": []}},
        {"id": "c2", "type": "single", "score": 3, "stem": {"type": "doc", "content": []}}
    ]"#);
    insert_q(&conn, &mat);

    let full = to_value(&questions_list_impl(&mut Db::new(&conn), None, None, None, None, None, false).unwrap());
    assert_eq!(full["total"], 2);
    let full_single = full["items"].as_array().unwrap().iter().find(|x| x["id"] == "q_test_1").unwrap();
    assert!(full_single.get("stem").is_some());
    assert!(full_single.get("analysis").is_some());

    let sum = to_value(&questions_list_impl(&mut Db::new(&conn), None, None, None, None, None, true).unwrap());
    assert_eq!(sum["total"], 2);
    let items = sum["items"].as_array().unwrap();
    assert_eq!(items.len(), 2);
    for it in items {
        for k in ["stem", "options", "answer", "analysis", "children"] {
            assert!(it.get(k).is_none(), "summary must omit {k}");
        }
        assert!(it.get("plain_text").is_some());
    }
    let s_single = items.iter().find(|x| x["id"] == "q_test_1").unwrap();
    assert!((s_single["score"].as_f64().unwrap() - 5.0).abs() < 1e-9);
    assert_eq!(s_single["children_count"], 0);
    assert!(s_single["children_score"].is_null());
    let s_mat = items.iter().find(|x| x["id"] == "q_mat_1").unwrap();
    assert_eq!(s_mat["children_count"], 2);
    assert!((s_mat["children_score"].as_f64().unwrap() - 5.0).abs() < 1e-9);
}

#[test]
fn questions_questions_list_summary_omits_heavy_fields() {
    check_questions_list_summary_omits_heavy_fields();
}

#[test]
fn db_questions_list_summary_omits_heavy_fields() {
    check_questions_list_summary_omits_heavy_fields();
}

fn check_questions_create_defaults_bank_and_update_moves_bank() {
    let conn = test_conn();
    let mut q = sample_question();
    q.as_object_mut().unwrap().remove("bank_id");
    let created = to_value(&questions_create_impl(&mut Db::new(&conn), to_json(&q)).unwrap());
    assert_eq!(created["bank_id"], "bank_default");

    let b2 = to_value(&banks_create_impl(&mut Db::new(&conn), "题库E", None).unwrap());
    let bid = b2["id"].as_str().unwrap().to_string();
    let mut q2 = sample_question();
    q2["id"] = Value::from("q_e_1");
    q2["bank_id"] = Value::from(bid.clone());
    let created2 = to_value(&questions_create_impl(&mut Db::new(&conn), to_json(&q2)).unwrap());
    assert_eq!(created2["bank_id"], Value::from(bid.clone()));

    let mut body = val(r#"{"score": 9}"#);
    body["bank_id"] = Value::from(bid.clone());
    let moved = to_value(&questions_update_impl(&mut Db::new(&conn), "q_test_1", to_json(&body)).unwrap());
    assert_eq!(moved["bank_id"], Value::from(bid.clone()));
    assert_eq!(moved["score"], val("9.0"));
    let counting = vals(banks_list_impl(&mut Db::new(&conn)).unwrap());
    let eb = counting.iter().find(|b| b["id"] == Value::from(bid.clone())).unwrap();
    assert_eq!(eb["question_count"], 2);
}

#[test]
fn questions_questions_create_defaults_bank_and_update_moves_bank() {
    check_questions_create_defaults_bank_and_update_moves_bank();
}

#[test]
fn db_questions_create_defaults_bank_and_update_moves_bank() {
    check_questions_create_defaults_bank_and_update_moves_bank();
}

// ---------------------------------------------------------------- practice

fn check_fsrs_card_validation_rejects_bad_input() {
    assert!(validate_fsrs_card(&sample_fsrs_card()).is_ok());
    let mut bad = sample_fsrs_card();
    bad.state = 4;
    assert!(validate_fsrs_card(&bad).is_err());
    let mut bad = sample_fsrs_card();
    bad.state = -1;
    assert!(validate_fsrs_card(&bad).is_err());
    let mut bad = sample_fsrs_card();
    bad.stability = "-0.5".to_string();
    assert!(validate_fsrs_card(&bad).is_err());
    let mut bad = sample_fsrs_card();
    bad.stability = "NaN".to_string();
    assert!(validate_fsrs_card(&bad).is_err());
    let mut bad = sample_fsrs_card();
    bad.reps = -1;
    assert!(validate_fsrs_card(&bad).is_err());
    let mut bad = sample_fsrs_card();
    bad.due_at = "not-a-date".to_string();
    assert!(validate_fsrs_card(&bad).is_err());
    let mut bad = sample_fsrs_card();
    bad.last_result = Some("bogus".to_string());
    assert!(validate_fsrs_card(&bad).is_err());
    let mut ok = sample_fsrs_card();
    ok.last_reviewed_at = None;
    ok.last_result = None;
    assert!(validate_fsrs_card(&ok).is_ok());
}

#[test]
fn practice_fsrs_card_validation_rejects_bad_input() {
    check_fsrs_card_validation_rejects_bad_input();
}

#[test]
fn db_fsrs_card_validation_rejects_bad_input() {
    check_fsrs_card_validation_rejects_bad_input();
}

fn check_records_overview_groups_days_and_types() {
    let conn = test_conn();
    let mut q = sample_question();
    q["bank_id"] = Value::from("bank_default");
    insert_q(&conn, &q);
    for (correct, at, ms) in [(1, "2026-09-10T10:00:00.000Z", 5000), (0, "2026-09-10T11:00:00.000Z", 8000), (1, "2026-09-12T10:00:00.000Z", 4000)] {
        conn.execute(
            "INSERT INTO practice_records (id, question_id, mode, grade, correct, answered_at, elapsed_ms, synced_at) VALUES (?1, 'q_test_1', 'practice', 'good', ?2, ?3, ?4, ?3)",
            (generate_id(), correct, at, ms),
        )
        .unwrap();
    }
    let v = to_value(&records_overview_impl(&mut Db::new(&conn), None).unwrap());
    assert_eq!(v["days"][0]["date"], "2026-09-12");
    assert_eq!(v["days"][0]["count"], 1);
    assert_eq!(v["days"][1]["count"], 2);
    assert_eq!(v["days"][1]["correct"], 1);
    assert_eq!(v["by_type"][0]["type"], "single");
    assert_eq!(v["by_type"][0]["count"], 3);
    assert_eq!(v["by_type"][0]["avg_ms"], 5667);
}

#[test]
fn practice_records_overview_groups_days_and_types() {
    check_records_overview_groups_days_and_types();
}

#[test]
fn db_records_overview_groups_days_and_types() {
    check_records_overview_groups_days_and_types();
}

fn iso(dt: chrono::DateTime<chrono::Utc>) -> String {
    dt.format("%Y-%m-%dT%H:%M:%S%.3fZ").to_string()
}

fn check_review_due_includes_items_due_later_today() {
    let conn = test_conn();
    for id in ["q_due_overdue", "q_due_later_today", "q_due_tomorrow"] {
        let mut q = sample_question();
        q["id"] = Value::from(id);
        insert_q(&conn, &q);
    }
    let start = chrono::Utc::now().date_naive().and_hms_opt(0, 0, 0).unwrap().and_utc();
    let end_today = start + chrono::Duration::days(1);
    conn.execute_batch(&format!(
        "INSERT INTO review_state (question_id, due_at, updated_at) VALUES
         ('q_due_overdue', '2000-01-01T00:00:00.000Z', '2000-01-01T00:00:00.000Z'),
         ('q_due_later_today', '{}', '2026-09-10T12:00:00.000Z'),
         ('q_due_tomorrow', '{}', '2026-09-10T12:00:00.000Z');",
        iso(end_today),
        iso(end_today + chrono::Duration::days(1))
    ))
    .unwrap();
    let due = review_due_impl(&mut Db::new(&conn), Some(50), None).unwrap();
    assert_eq!(due.len(), 2);
    let stats = to_value(&review_stats_impl(&mut Db::new(&conn), None).unwrap());
    assert_eq!(stats["due_total"], 1);
    assert_eq!(stats["due_today"], 2);
    assert_eq!(stats["learning_due"], 0);
    conn.execute("UPDATE review_state SET state = 1 WHERE question_id = 'q_due_overdue'", []).unwrap();
    let stats2 = to_value(&review_stats_impl(&mut Db::new(&conn), None).unwrap());
    assert_eq!(stats2["learning_due"], 1);
}

#[test]
fn practice_review_due_includes_items_due_later_today() {
    check_review_due_includes_items_due_later_today();
}

#[test]
fn db_review_due_includes_items_due_later_today() {
    check_review_due_includes_items_due_later_today();
}

fn check_wrong_list_tracks_latest_wrong_only() {
    let conn = test_conn();
    for id in ["q_w_1", "q_w_2", "q_w_3"] {
        let mut q = sample_question();
        q["id"] = Value::from(id);
        q["bank_id"] = Value::from("bank_default");
        insert_q(&conn, &q);
    }
    insert_record(&conn, "q_w_1", 0, "2026-09-10T10:00:00.000Z");
    insert_record(&conn, "q_w_1", 0, "2026-09-11T10:00:00.000Z");
    insert_record(&conn, "q_w_2", 0, "2026-09-10T10:00:00.000Z");
    insert_record(&conn, "q_w_2", 1, "2026-09-12T10:00:00.000Z");
    insert_record(&conn, "q_w_3", 1, "2026-09-10T10:00:00.000Z");
    let w = wrong(&conn, None, None, None, None, None);
    assert_eq!(w["total"], 1);
    assert_eq!(w["items"][0]["id"], "q_w_1");
    assert_eq!(w["items"][0]["wrong_count"], 2);
    assert_eq!(w["items"][0]["last_wrong_at"], "2026-09-11T10:00:00.000Z");
    let p = wrong(&conn, None, None, Some(1), Some(1), None);
    assert_eq!(p["total"], 1);
    assert_eq!(p["items"].as_array().unwrap().len(), 0);
    assert_eq!(wrong(&conn, Some("bank_nope".to_string()), None, None, None, None)["total"], 0);
    assert_eq!(wrong(&conn, Some("bank_default".to_string()), None, None, None, None)["total"], 1);
    assert_eq!(wrong(&conn, None, Some("single".to_string()), None, None, None)["total"], 1);
    assert_eq!(wrong(&conn, None, Some("multi".to_string()), None, None, None)["total"], 0);
}

#[test]
fn practice_wrong_list_tracks_latest_wrong_only() {
    check_wrong_list_tracks_latest_wrong_only();
}

#[test]
fn db_wrong_list_tracks_latest_wrong_only() {
    check_wrong_list_tracks_latest_wrong_only();
}

fn check_wrong_dismiss_hides_and_rewrong_returns() {
    let conn = test_conn();
    let mut q = sample_question();
    q["id"] = Value::from("q_w_d");
    q["bank_id"] = Value::from("bank_default");
    insert_q(&conn, &q);
    conn.execute(
        "INSERT INTO practice_records (id, question_id, mode, grade, correct, answered_at, synced_at)
         VALUES ('rec_wd_1', 'q_w_d', 'practice', 'again', 0, '2026-09-10T10:00:00.000Z', '2026-09-10T10:00:00.000Z')",
        [],
    )
    .unwrap();
    assert_eq!(wrong(&conn, None, None, None, None, None)["total"], 1);
    dismiss_wrong(&mut Db::new(&conn), "q_w_d").unwrap();
    assert_eq!(wrong(&conn, None, None, None, None, None)["total"], 0);
    dismiss_wrong(&mut Db::new(&conn), "q_w_d").unwrap();
    dismiss_wrong(&mut Db::new(&conn), "q_nope").unwrap();
    assert_eq!(count(&conn, "SELECT COUNT(*) FROM practice_records WHERE question_id='q_w_d'"), 1);
    undismiss_wrong(&mut Db::new(&conn), "q_w_d", "2026-09-10T12:00:00.000Z").unwrap();
    assert_eq!(wrong(&conn, None, None, None, None, None)["total"], 1);
    conn.execute("DELETE FROM questions WHERE id='q_w_d'", []).unwrap();
    assert_eq!(count(&conn, "SELECT COUNT(*) FROM wrong_dismiss WHERE question_id='q_w_d'"), 0);
}

#[test]
fn practice_wrong_dismiss_hides_and_rewrong_returns() {
    check_wrong_dismiss_hides_and_rewrong_returns();
}

#[test]
fn db_wrong_dismiss_hides_and_rewrong_returns() {
    check_wrong_dismiss_hides_and_rewrong_returns();
}

fn check_wrong_list_leaves_after_n_consecutive_correct() {
    let conn = test_conn();
    let mut q = sample_question();
    q["id"] = Value::from("q_w_n");
    q["bank_id"] = Value::from("bank_default");
    insert_q(&conn, &q);
    let total_with = |n: Option<u64>| wrong(&conn, None, None, None, None, n)["total"].as_i64().unwrap();
    insert_record(&conn, "q_w_n", 0, "2026-09-10T10:00:00.000Z");
    insert_record(&conn, "q_w_n", 1, "2026-09-11T10:00:00.000Z");
    assert_eq!(total_with(None), 0);
    assert_eq!(total_with(Some(2)), 1);
    assert_eq!(total_with(Some(0)), 0);
    insert_record(&conn, "q_w_n", 1, "2026-09-12T10:00:00.000Z");
    assert_eq!(total_with(Some(2)), 0);
    insert_record(&conn, "q_w_n", 0, "2026-09-13T10:00:00.000Z");
    assert_eq!(total_with(Some(3)), 1);
    let w = wrong(&conn, None, None, None, None, Some(3));
    assert_eq!(w["items"][0]["wrong_count"], 2);
}

#[test]
fn practice_wrong_list_leaves_after_n_consecutive_correct() {
    check_wrong_list_leaves_after_n_consecutive_correct();
}

#[test]
fn db_wrong_list_leaves_after_n_consecutive_correct() {
    check_wrong_list_leaves_after_n_consecutive_correct();
}

fn check_wrong_list_includes_last_wrong_detail() {
    let conn = test_conn();
    let mut q = sample_question();
    q["id"] = Value::from("q_w_v");
    q["bank_id"] = Value::from("bank_default");
    insert_q(&conn, &q);
    for (at, detail) in [("2026-09-10T10:00:00.000Z", r#"{"selected":["o2"]}"#), ("2026-09-11T10:00:00.000Z", r#"{"selected":["o1"]}"#)] {
        conn.execute(
            "INSERT INTO practice_records (id, question_id, mode, grade, correct, answered_at, detail_json, synced_at) VALUES (?1, 'q_w_v', 'practice', 'good', ?2, ?3, ?4, ?3)",
            (generate_id(), 0, at, detail),
        )
        .unwrap();
    }
    let w = wrong(&conn, None, None, None, None, None);
    assert_eq!(w["total"], 1);
    assert_eq!(w["items"][0]["last_wrong_detail"]["selected"], val(r#"["o1"]"#));
    assert_eq!(w["items"][0]["last_wrong_at"], "2026-09-11T10:00:00.000Z");
}

#[test]
fn practice_wrong_list_includes_last_wrong_detail() {
    check_wrong_list_includes_last_wrong_detail();
}

#[test]
fn db_wrong_list_includes_last_wrong_detail() {
    check_wrong_list_includes_last_wrong_detail();
}

fn answer_item(id: Option<&str>, qid: &str, mode: &str, grade: &str, at: &str, elapsed: Option<i64>, card: Option<FsrsCard>) -> RecordItem {
    RecordItem {
        id: id.map(|s| s.to_string()),
        question_id: qid.to_string(),
        mode: mode.to_string(),
        grade: Some(grade.to_string()),
        answered_at: Some(at.to_string()),
        elapsed_ms: elapsed,
        detail: None,
        card,
        fsrs_log: None,
    }
}

fn check_record_client_id_idempotent_and_conflict() {
    let conn = test_conn();
    let mut q = sample_question();
    q["id"] = Value::from("q_r1");
    q["bank_id"] = Value::from("bank_default");
    insert_q(&conn, &q);
    let rid = "11111111-1111-7111-8111-111111111111";
    let item = |grade: &str| answer_item(Some(rid), "q_r1", "practice", grade, "2026-09-10T12:00:00.000Z", Some(1000), None);
    let r1 = record(&conn, vec![item("good")]).unwrap();
    assert_eq!(r1["inserted"], 1);
    let r2 = record(&conn, vec![item("good")]).unwrap();
    assert_eq!(r2["inserted"], 0);
    assert!(record(&conn, vec![item("again")]).is_err());
    let bad = RecordItem { id: Some("not-a-uuid".to_string()), ..item("good") };
    assert!(record(&conn, vec![bad]).is_err());
}

#[test]
fn practice_record_client_id_idempotent_and_conflict() {
    check_record_client_id_idempotent_and_conflict();
}

#[test]
fn db_record_client_id_idempotent_and_conflict() {
    check_record_client_id_idempotent_and_conflict();
}

fn check_record_repeat_does_not_advance_review_state_twice() {
    let conn = test_conn();
    let mut q = sample_question();
    q["id"] = Value::from("q_r2");
    q["bank_id"] = Value::from("bank_default");
    insert_q(&conn, &q);
    let mk = || answer_item(Some("22222222-2222-7222-8222-222222222222"), "q_r2", "review", "good", "2026-09-10T12:00:00.000Z", None, Some(sample_fsrs_card()));
    record(&conn, vec![mk()]).unwrap();
    let u1: String = conn.query_row("SELECT updated_at FROM review_state WHERE question_id = 'q_r2'", [], |r| r.get(0)).unwrap();
    record(&conn, vec![mk()]).unwrap();
    let u2: String = conn.query_row("SELECT updated_at FROM review_state WHERE question_id = 'q_r2'", [], |r| r.get(0)).unwrap();
    assert_eq!(u1, u2);
    assert_eq!(u1, "2026-09-10T12:00:00.000Z");
}

#[test]
fn practice_record_repeat_does_not_advance_review_state_twice() {
    check_record_repeat_does_not_advance_review_state_twice();
}

#[test]
fn db_record_repeat_does_not_advance_review_state_twice() {
    check_record_repeat_does_not_advance_review_state_twice();
}

fn check_backfill_does_not_regress_review_state() {
    let conn = test_conn();
    let mut q = sample_question();
    q["id"] = Value::from("q_r3");
    q["bank_id"] = Value::from("bank_default");
    insert_q(&conn, &q);
    let mk = |at: &str| answer_item(None, "q_r3", "review", "good", at, None, Some(sample_fsrs_card()));
    record(&conn, vec![mk("2026-09-12T00:00:00.000Z")]).unwrap();
    record(&conn, vec![mk("2026-09-10T00:00:00.000Z")]).unwrap();
    let u: String = conn.query_row("SELECT updated_at FROM review_state WHERE question_id = 'q_r3'", [], |r| r.get(0)).unwrap();
    assert_eq!(u, "2026-09-12T00:00:00.000Z");
}

#[test]
fn practice_backfill_does_not_regress_review_state() {
    check_backfill_does_not_regress_review_state();
}

#[test]
fn db_backfill_does_not_regress_review_state() {
    check_backfill_does_not_regress_review_state();
}

fn check_db_fsrs_persistence_attach_and_cascade() {
    let conn = raw_conn();
    conn.execute_batch(migrations()).unwrap();
    let q = sample_question();
    insert_q(&conn, &q);
    let mut q2 = sample_question();
    q2["id"] = Value::from("q_test_2");
    insert_q(&conn, &q2);

    let mut card = sample_fsrs_card();
    card.due_at = "2026-09-17T12:00:00.000Z".to_string();
    fsrs_upsert(&mut Db::new(&conn), "q_test_1", &card, "2026-09-10T12:00:00.000Z").unwrap();
    card.stability = "5.5".to_string();
    card.state = 1;
    fsrs_upsert(&mut Db::new(&conn), "q_test_1", &card, "2026-09-10T12:00:00.000Z").unwrap();
    let (stability, difficulty, reps, lapses, state, due_at): (f64, f64, i64, i64, i64, String) = conn
        .query_row(
            "SELECT stability, difficulty, reps, lapses, state, due_at FROM review_state WHERE question_id = 'q_test_1'",
            [],
            |r| Ok((r.get(0)?, r.get(1)?, r.get(2)?, r.get(3)?, r.get(4)?, r.get(5)?)),
        )
        .unwrap();
    assert!((stability - 5.5).abs() < 1e-9);
    assert!((difficulty - 5.0).abs() < 1e-9);
    assert_eq!((reps, lapses, state), (1, 0, 1));
    assert_eq!(due_at, "2026-09-17T12:00:00.000Z");
    let mut bad = sample_fsrs_card();
    bad.state = 9;
    assert!(fsrs_upsert(&mut Db::new(&conn), "q_test_2", &bad, "2026-09-10T12:00:00.000Z").is_err());
    assert_eq!(count(&conn, "SELECT COUNT(*) FROM review_state"), 1);

    let due_sql = format!(
        "SELECT {} FROM questions q JOIN review_state r ON r.question_id = q.id WHERE r.due_at <= ?1 ORDER BY r.due_at ASC LIMIT ?2",
        select_fields_q()
    );
    let not_due = query_questions(&mut Db::new(&conn), &due_sql, &vec![SqlValue::Text("2026-09-10T12:00:00.000Z".to_string()), SqlValue::Int(20)]).unwrap();
    assert_eq!(not_due.len(), 0);
    let due = query_questions(&mut Db::new(&conn), &due_sql, &vec![SqlValue::Text("2026-09-20T00:00:00.000Z".to_string()), SqlValue::Int(20)]).unwrap();
    assert_eq!(due.len(), 1);

    let pool = vals(practice_pool_impl(&mut Db::new(&conn), Some(20), None, None, None).unwrap());
    assert_eq!(pool.len(), 2);
    let with_fsrs = pool.iter().find(|x| x["id"] == "q_test_1").unwrap();
    assert_eq!(with_fsrs["fsrs"]["state"], 1);
    assert!((with_fsrs["fsrs"]["stability"].as_f64().unwrap() - 5.5).abs() < 1e-9);
    let without = pool.iter().find(|x| x["id"] == "q_test_2").unwrap();
    assert!(without["fsrs"].is_null());
    let due_list = vals(review_due_impl(&mut Db::new(&conn), Some(50), None).unwrap());
    assert_eq!(due_list.len(), 1);
    assert_eq!(due_list[0]["fsrs"]["due_at"], "2026-09-17T12:00:00.000Z");

    let log_in = serde_json::to_string(&val(r#"{"rating": 3}"#)).unwrap();
    conn.execute(
        "INSERT INTO practice_records (id, question_id, mode, grade, correct, answered_at, fsrs_log, synced_at) VALUES ('rec_fs_1', 'q_test_1', 'review', 'good', 1, '2026-09-10T12:00:00.000Z', ?1, '2026-09-10T12:00:00.000Z')",
        [log_in],
    )
    .unwrap();
    let log: String = conn.query_row("SELECT fsrs_log FROM practice_records WHERE id = 'rec_fs_1'", [], |r| r.get(0)).unwrap();
    assert_eq!(serde_json::from_str::<Value>(&log).unwrap(), val(r#"{"rating": 3}"#));

    let mut stmt = conn
        .prepare("SELECT substr(answered_at, 1, 10) AS d, COUNT(*), COALESCE(SUM(correct), 0) FROM practice_records WHERE answered_at >= ?1 GROUP BY d ORDER BY d")
        .unwrap();
    let mut rows = stmt.query(["2026-09-04T00:00:00.000Z"]).unwrap();
    let mut got: Vec<(String, i64, i64)> = Vec::new();
    while let Some(row) = rows.next().unwrap() {
        got.push((row.get(0).unwrap(), row.get(1).unwrap(), row.get(2).unwrap()));
    }
    assert_eq!(got, vec![("2026-09-10".to_string(), 1, 1)]);

    conn.execute("DELETE FROM questions WHERE id = 'q_test_1'", []).unwrap();
    assert_eq!(count(&conn, "SELECT COUNT(*) FROM practice_records"), 0);
    assert_eq!(count(&conn, "SELECT COUNT(*) FROM review_state"), 0);
}

#[test]
fn practice_db_fsrs_persistence_attach_and_cascade() {
    check_db_fsrs_persistence_attach_and_cascade();
}

#[test]
fn db_db_fsrs_persistence_attach_and_cascade() {
    check_db_fsrs_persistence_attach_and_cascade();
}
