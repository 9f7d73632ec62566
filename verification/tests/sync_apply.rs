use qbank::db::Db;
use qbank::json::Json;
use qbank::schema::init_schema;
use rusqlite::Connection;
use serde_json::Value;

fn val(text: &str) -> Value {
    serde_json::from_str(text).unwrap()
}

fn to_json(v: &Value) -> Json {
    Json::parse(&v.to_string()).unwrap()
}

fn to_value(j: &Json) -> Value {
    serde_json::from_str(&j.to_text()).unwrap()
}

fn sample_question() -> Value {
    val(r#"{
        "id": "q_test_1",
        "type": "single",
        "version": 2,
        "difficulty": 2,
        "score": 5,
        "status": "published",
        "stem": {"type": "doc", "content": [{"type": "paragraph", "content": [{"type": "text", "text": "1+1=?"}]}]},
        "options": [
            {"id": "o1", "content": {"type": "doc", "content": [{"type": "paragraph", "content": [{"type": "text", "text": "2"}]}]}},
            {"id": "o2", "content": {"type": "doc", "content": [{"type": "paragraph", "content": [{"type": "text", "text": "3"}]}]}}
        ],
        "answer": {"ids": ["o1"]},
        "analysis": null,
        "plain_text": "1+1=? 2 3",
        "created_at": "2026-09-10T12:00:00.000Z",
        "updated_at": "2026-09-10T12:00:00.000Z"
    }"#)
}

fn test_conn() -> Connection {
    let conn = Connection::open_in_memory().unwrap();
    conn.execute_batch("PRAGMA foreign_keys=ON;").unwrap();
    init_schema(&mut Db::new(&conn)).unwrap();
    conn
}

fn insert_q(conn: &Connection, q: &Value) {
    qbank::questions::insert_question(&mut Db::new(conn), &to_json(q)).unwrap();
}

fn fetch_q(conn: &Connection, id: &str) -> Option<Value> {
    qbank::questions::fetch_question(&mut Db::new(conn), id).unwrap().map(|q| to_value(&q))
}

fn fetch_b(conn: &Connection, id: &str) -> Option<Value> {
    qbank::banks::fetch_bank(&mut Db::new(conn), id).unwrap().map(|b| to_value(&b))
}

fn count(conn: &Connection, sql: &str) -> i64 {
    conn.query_row(sql, [], |r| r.get(0)).unwrap()
}
use qbank::merge::SyncRole;
use qbank::sync::{apply_bundle, export_delta, question_alive, tombstone_floor, write_tombstone};
use qbank::clock::clamp_business_time;
use qbank::banks::banks_list_impl;

fn sync_q(id: &str, bank: &str, updated: &str) -> Value {
    let mut q = sample_question();
    q["id"] = Value::from(id);
    q["bank_id"] = Value::from(bank);
    q["created_at"] = Value::from("2026-01-01T00:00:00.000Z");
    q["updated_at"] = Value::from(updated);
    q["synced_at"] = Value::from(updated);
    q
}

fn sync_bank(id: &str, name: &str, updated: &str) -> Value {
    let mut b = val(r#"{"description": null, "created_at": "2026-01-01T00:00:00.000Z"}"#);
    b["id"] = Value::from(id);
    b["name"] = Value::from(name);
    b["updated_at"] = Value::from(updated);
    b["synced_at"] = Value::from(updated);
    b
}

fn tomb(id: &str, et: &str, bank: Option<&str>, deleted: &str) -> Value {
    let mut t = val(r#"{"actor": "t"}"#);
    t["entity_type"] = Value::from(et);
    t["entity_id"] = Value::from(id);
    t["bank_id"] = match bank {
        Some(b) => Value::from(b),
        None => Value::Null,
    };
    t["deleted_at"] = Value::from(deleted);
    t["synced_at"] = Value::from(deleted);
    t
}

fn bundle(device: &str) -> Value {
    let mut b = val(r#"{"banks": [], "questions": [], "records": [], "review_state": [], "wrong_dismiss": [], "settings": [], "tombstones": []}"#);
    b["device_id"] = Value::from(device);
    b
}

fn apply(conn: &Connection, b: &Value, role: SyncRole) -> Value {
    to_value(&apply_bundle(&mut Db::new(conn), &to_json(b), role).unwrap())
}

fn any_reason(res: &Value, pat: &str) -> bool {
    res["conflicts"].as_array().unwrap().iter().any(|c| c["reason"].as_str().unwrap().contains(pat))
}

fn check_tombstone_written_and_redundant_delete_upserts() {
    let conn = Connection::open_in_memory().unwrap();
    conn.execute_batch("PRAGMA foreign_keys=ON;").unwrap();
    init_schema(&mut Db::new(&conn)).unwrap();
    let mut qq = sample_question();
    qq["id"] = Value::from("q_t1");
    qq["bank_id"] = Value::from("bank_default");
    insert_q(&conn, &qq);
    conn.execute_batch("BEGIN").unwrap();
    write_tombstone(&mut Db::new(&conn), "question", "q_t1", Some("bank_default"), "2026-09-18T00:00:00.000Z", Some("d1")).unwrap();
    conn.execute("DELETE FROM questions WHERE id = 'q_t1'", []).unwrap();
    conn.execute_batch("COMMIT").unwrap();
    assert_eq!(count(&conn, "SELECT COUNT(*) FROM delete_log WHERE entity_type='question' AND entity_id='q_t1'"), 1);
    conn.execute_batch("BEGIN").unwrap();
    write_tombstone(&mut Db::new(&conn), "question", "q_t1", Some("bank_default"), "2026-09-19T00:00:00.000Z", Some("d1")).unwrap();
    conn.execute_batch("COMMIT").unwrap();
    assert_eq!(count(&conn, "SELECT COUNT(*) FROM delete_log"), 1);
    let d: String = conn.query_row("SELECT deleted_at FROM delete_log", [], |r| r.get(0)).unwrap();
    assert_eq!(d, "2026-09-19T00:00:00.000Z");
}

#[test]
fn sync_tombstone_written_and_redundant_delete_upserts() {
    check_tombstone_written_and_redundant_delete_upserts();
}

#[test]
fn db_tombstone_written_and_redundant_delete_upserts() {
    check_tombstone_written_and_redundant_delete_upserts();
}

fn check_tombstone_lww_both_directions() {
    let conn = test_conn();
    let mut b = bundle("d1");
    b["questions"] = Value::Array(vec![sync_q("q_l1", "bank_default", "2026-09-10T00:00:00.000Z")]);
    apply(&conn, &b, SyncRole::Center);
    assert!(fetch_q(&conn, "q_l1").is_some());
    let mut b2 = bundle("d1");
    b2["tombstones"] = Value::Array(vec![tomb("q_l1", "question", Some("bank_default"), "2026-09-12T00:00:00.000Z")]);
    apply(&conn, &b2, SyncRole::Center);
    assert!(fetch_q(&conn, "q_l1").is_none());
    let mut b3 = bundle("d2");
    b3["questions"] = Value::Array(vec![sync_q("q_l1", "bank_default", "2026-09-15T00:00:00.000Z")]);
    let res = apply(&conn, &b3, SyncRole::Center);
    assert!(fetch_q(&conn, "q_l1").is_some());
    assert_eq!(count(&conn, "SELECT COUNT(*) FROM delete_log WHERE entity_id = 'q_l1'"), 0);
    assert!(any_reason(&res, "edit-beats-tombstone"));
    assert!(question_alive(&mut Db::new(&conn), "q_l1").unwrap());
}

#[test]
fn sync_tombstone_lww_both_directions() {
    check_tombstone_lww_both_directions();
}

#[test]
fn db_tombstone_lww_both_directions() {
    check_tombstone_lww_both_directions();
}

fn check_bank_edit_beats_bank_tombstone() {
    let conn = test_conn();
    let mut seed = bundle("s");
    seed["banks"] = Value::Array(vec![sync_bank("b_eb_1", "EB库", "2026-09-10T00:00:00.000Z")]);
    apply(&conn, &seed, SyncRole::Center);
    let mut push = bundle("dA");
    push["tombstones"] = Value::Array(vec![tomb("b_eb_1", "bank", Some("b_eb_1"), "2026-09-12T00:00:00.000Z")]);
    apply(&conn, &push, SyncRole::Center);
    assert!(fetch_b(&conn, "b_eb_1").is_none());
    let mut push2 = bundle("dB");
    push2["banks"] = Value::Array(vec![sync_bank("b_eb_1", "EB库", "2026-09-15T00:00:00.000Z")]);
    let res = apply(&conn, &push2, SyncRole::Center);
    assert!(fetch_b(&conn, "b_eb_1").is_some());
    assert_eq!(count(&conn, "SELECT COUNT(*) FROM delete_log WHERE entity_type = 'bank' AND entity_id = 'b_eb_1'"), 0);
    assert!(any_reason(&res, "edit-beats-tombstone"));
}

#[test]
fn sync_bank_edit_beats_bank_tombstone() {
    check_bank_edit_beats_bank_tombstone();
}

#[test]
fn db_bank_edit_beats_bank_tombstone() {
    check_bank_edit_beats_bank_tombstone();
}

fn check_bank_deleted_survivor_question_rebanked_to_default() {
    let conn = test_conn();
    let mut seed = bundle("seed");
    seed["banks"] = Value::Array(vec![sync_bank("b_m1", "M库", "2026-09-01T00:00:00.000Z")]);
    seed["questions"] = Value::Array(vec![sync_q("q_m1", "b_m1", "2026-09-01T00:00:00.000Z")]);
    apply(&conn, &seed, SyncRole::Center);
    let mut push = bundle("dX");
    push["tombstones"] = Value::Array(vec![
        tomb("b_m1", "bank", Some("b_m1"), "2026-09-10T00:00:00.000Z"),
        tomb("q_m1", "question", Some("b_m1"), "2026-09-09T00:00:00.000Z"),
    ]);
    push["questions"] = Value::Array(vec![sync_q("q_m1", "b_m1", "2026-09-12T00:00:00.000Z")]);
    apply(&conn, &push, SyncRole::Center);
    let row = fetch_q(&conn, "q_m1").unwrap();
    assert_eq!(row["bank_id"], Value::from("bank_default"));
    assert!(row["updated_at"].as_str().unwrap() > "2026-09-12T00:00:00.000Z");
    assert!(fetch_b(&conn, "b_m1").is_none());
}

#[test]
fn sync_bank_deleted_survivor_question_rebanked_to_default() {
    check_bank_deleted_survivor_question_rebanked_to_default();
}

#[test]
fn db_bank_deleted_survivor_question_rebanked_to_default() {
    check_bank_deleted_survivor_question_rebanked_to_default();
}

fn check_zero_bank_guard_skips_whole_cascade() {
    let conn = test_conn();
    let mut seed = bundle("seed");
    seed["banks"] = Value::Array(vec![
        sync_bank("b_z1", "Z1", "2026-09-01T00:00:00.000Z"),
        sync_bank("b_z2", "Z2", "2026-09-01T00:00:00.000Z"),
    ]);
    seed["questions"] = Value::Array(vec![
        sync_q("q_z1", "b_z1", "2026-09-01T00:00:00.000Z"),
        sync_q("q_z2", "b_z2", "2026-09-01T00:00:00.000Z"),
    ]);
    apply(&conn, &seed, SyncRole::Center);
    let mut push = bundle("dZ");
    push["tombstones"] = Value::Array(vec![
        tomb("bank_default", "bank", Some("bank_default"), "2026-09-10T00:00:00.000Z"),
        tomb("b_z1", "bank", Some("b_z1"), "2026-09-10T00:00:00.000Z"),
        tomb("b_z2", "bank", Some("b_z2"), "2026-09-10T00:00:00.000Z"),
        tomb("q_z1", "question", Some("b_z1"), "2026-09-10T00:00:00.000Z"),
        tomb("q_z2", "question", Some("b_z2"), "2026-09-10T00:00:00.000Z"),
    ]);
    let res = apply(&conn, &push, SyncRole::Center);
    assert_eq!(banks_list_impl(&mut Db::new(&conn)).unwrap().len(), 3);
    assert!(fetch_q(&conn, "q_z1").is_some());
    assert!(fetch_q(&conn, "q_z2").is_some());
    assert_eq!(count(&conn, "SELECT COUNT(*) FROM delete_log"), 0);
    assert_eq!(res["conflicts"].as_array().unwrap().len(), 5);
}

#[test]
fn sync_zero_bank_guard_skips_whole_cascade() {
    check_zero_bank_guard_skips_whole_cascade();
}

#[test]
fn db_zero_bank_guard_skips_whole_cascade() {
    check_zero_bank_guard_skips_whole_cascade();
}

fn check_lww_parallel_converges_center_wins_leaf_follows() {
    let conn = test_conn();
    let mut b = bundle("d1");
    b["questions"] = Value::Array(vec![sync_q("q_p1", "bank_default", "2026-09-10T00:00:00.000Z")]);
    apply(&conn, &b, SyncRole::Center);
    let mut b2 = bundle("d2");
    let mut q2 = sync_q("q_p1", "bank_default", "2026-09-10T00:00:00.000Z");
    q2["difficulty"] = Value::from(5);
    b2["questions"] = Value::Array(vec![q2]);
    apply(&conn, &b2, SyncRole::Center);
    let row = fetch_q(&conn, "q_p1").unwrap();
    assert_eq!(row["difficulty"], Value::from(2));
    let mut b3 = bundle("hub");
    let mut q3 = sync_q("q_p1", "bank_default", "2026-09-10T00:00:00.000Z");
    q3["difficulty"] = Value::from(5);
    b3["questions"] = Value::Array(vec![q3]);
    apply(&conn, &b3, SyncRole::Leaf);
    let row2 = fetch_q(&conn, "q_p1").unwrap();
    assert_eq!(row2["difficulty"], Value::from(5));
}

#[test]
fn sync_lww_parallel_converges_center_wins_leaf_follows() {
    check_lww_parallel_converges_center_wins_leaf_follows();
}

#[test]
fn db_lww_parallel_converges_center_wins_leaf_follows() {
    check_lww_parallel_converges_center_wins_leaf_follows();
}

fn check_slow_clock_row_not_missed_by_cursor() {
    let conn = test_conn();
    let mut q = sync_q("q_s1", "bank_default", "2026-01-01T00:00:00.000Z");
    q["synced_at"] = Value::from("2026-09-15T00:00:00.000Z");
    insert_q(&conn, &q);
    let (bundle, _) = export_delta(&mut Db::new(&conn), Some("2026-09-14T00:00:00.000Z")).unwrap();
    let bundle = to_value(&bundle);
    let ids: Vec<&str> = bundle["questions"].as_array().unwrap().iter().filter_map(|x| x["id"].as_str()).collect();
    assert!(ids.contains(&"q_s1"));
}

#[test]
fn sync_slow_clock_row_not_missed_by_cursor() {
    check_slow_clock_row_not_missed_by_cursor();
}

#[test]
fn db_slow_clock_row_not_missed_by_cursor() {
    check_slow_clock_row_not_missed_by_cursor();
}

fn record_value(id: &str, qid: &str, grade: &str) -> Value {
    let mut r = val(r#"{"mode": "practice", "correct": 1, "answered_at": "2026-09-13T00:00:00.000Z", "elapsed_ms": 500, "detail_json": null, "fsrs_log": null, "synced_at": "2026-09-13T00:00:00.000Z"}"#);
    r["id"] = Value::from(id);
    r["question_id"] = Value::from(qid);
    r["grade"] = Value::from(grade);
    r
}

fn check_same_bundle_tombstone_kills_record() {
    let conn = test_conn();
    let mut b = bundle("d1");
    b["questions"] = Value::Array(vec![sync_q("q_z1", "bank_default", "2026-09-10T00:00:00.000Z")]);
    apply(&conn, &b, SyncRole::Center);
    let mut b2 = bundle("d2");
    b2["tombstones"] = Value::Array(vec![tomb("q_z1", "question", Some("bank_default"), "2026-09-12T00:00:00.000Z")]);
    b2["records"] = Value::Array(vec![record_value("33333333-3333-7333-8333-333333333333", "q_z1", "good")]);
    let res = apply(&conn, &b2, SyncRole::Center);
    assert!(fetch_q(&conn, "q_z1").is_none());
    assert_eq!(count(&conn, "SELECT COUNT(*) FROM practice_records"), 0);
    assert_eq!(res["dropped_orphans"], 1);
}

#[test]
fn sync_same_bundle_tombstone_kills_record() {
    check_same_bundle_tombstone_kills_record();
}

#[test]
fn db_same_bundle_tombstone_kills_record() {
    check_same_bundle_tombstone_kills_record();
}

fn check_horizon_guard_drops_zombie() {
    let conn = test_conn();
    conn.execute("UPDATE db_meta SET value = '2026-01-01T00:00:00.000Z' WHERE key = 'created_at'", []).unwrap();
    let mut b = bundle("old");
    b["questions"] = Value::Array(vec![sync_q("q_old", "bank_default", "2026-02-01T00:00:00.000Z")]);
    let res = apply(&conn, &b, SyncRole::Center);
    assert!(fetch_q(&conn, "q_old").is_none());
    assert!(any_reason(&res, "zombie-row-dropped"));
}

#[test]
fn sync_horizon_guard_drops_zombie() {
    check_horizon_guard_drops_zombie();
}

#[test]
fn db_horizon_guard_drops_zombie() {
    check_horizon_guard_drops_zombie();
}

fn check_tombstone_floor_empty_for_young_db() {
    let conn = test_conn();
    assert_eq!(tombstone_floor(&mut Db::new(&conn)).unwrap(), None);
}

#[test]
fn sync_tombstone_floor_empty_for_young_db() {
    check_tombstone_floor_empty_for_young_db();
}

#[test]
fn db_tombstone_floor_empty_for_young_db() {
    check_tombstone_floor_empty_for_young_db();
}

fn check_apply_is_idempotent() {
    let conn = test_conn();
    let mut b = bundle("d1");
    b["banks"] = Value::Array(vec![sync_bank("b_x", "X库", "2026-09-10T00:00:00.000Z")]);
    b["questions"] = Value::Array(vec![sync_q("q_x1", "b_x", "2026-09-10T00:00:00.000Z")]);
    b["settings"] = val(r#"[{ "key": "k", "value_json": "1", "updated_at": "2026-09-10T00:00:00.000Z" }]"#);
    let r1 = apply(&conn, &b, SyncRole::Center);
    let r2 = apply(&conn, &b, SyncRole::Center);
    let sum: i64 = ["banks", "questions", "records", "review_state", "wrong_dismiss", "settings", "tombstones"]
        .iter()
        .map(|k| r2["applied"][k].as_i64().unwrap_or(-1))
        .sum();
    assert_eq!(sum, 0);
    assert_eq!(r1["applied"]["banks"], 1);
}

#[test]
fn sync_apply_is_idempotent() {
    check_apply_is_idempotent();
}

#[test]
fn db_apply_is_idempotent() {
    check_apply_is_idempotent();
}

fn check_syncrole_stamp_behavior() {
    let c = test_conn();
    let mut b = bundle("d1");
    b["questions"] = Value::Array(vec![sync_q("q_ro", "bank_default", "2026-09-10T00:00:00.000Z")]);
    apply(&c, &b, SyncRole::Center);
    let s: String = c.query_row("SELECT synced_at FROM questions WHERE id = 'q_ro'", [], |r| r.get(0)).unwrap();
    assert!(s.as_str() > "2026-09-10T00:00:00.000Z");
    let c2 = test_conn();
    apply(&c2, &b, SyncRole::Leaf);
    let s2: String = c2.query_row("SELECT synced_at FROM questions WHERE id = 'q_ro'", [], |r| r.get(0)).unwrap();
    assert_eq!(s2, "2026-09-10T00:00:00.000Z");
}

#[test]
fn sync_syncrole_stamp_behavior() {
    check_syncrole_stamp_behavior();
}

#[test]
fn db_syncrole_stamp_behavior() {
    check_syncrole_stamp_behavior();
}

fn check_guard_keeps_bank_and_questions_together() {
    let conn = test_conn();
    let mut seed = bundle("seed");
    seed["banks"] = Value::Array(vec![
        sync_bank("b_g1", "G1", "2026-09-01T00:00:00.000Z"),
        sync_bank("b_g2", "G2", "2026-09-01T00:00:00.000Z"),
    ]);
    seed["questions"] = Value::Array(vec![
        sync_q("q_g1", "b_g1", "2026-09-01T00:00:00.000Z"),
        sync_q("q_g2", "b_g2", "2026-09-01T00:00:00.000Z"),
    ]);
    apply(&conn, &seed, SyncRole::Center);
    let mut push = bundle("dG");
    push["tombstones"] = Value::Array(vec![
        tomb("bank_default", "bank", Some("bank_default"), "2026-09-10T00:00:00.000Z"),
        tomb("b_g1", "bank", Some("b_g1"), "2026-09-10T00:00:00.000Z"),
        tomb("b_g2", "bank", Some("b_g2"), "2026-09-10T00:00:00.000Z"),
    ]);
    let res = apply(&conn, &push, SyncRole::Center);
    assert_eq!(banks_list_impl(&mut Db::new(&conn)).unwrap().len(), 3);
    assert_eq!(fetch_q(&conn, "q_g1").unwrap()["bank_id"], Value::from("b_g1"));
    assert_eq!(fetch_q(&conn, "q_g2").unwrap()["bank_id"], Value::from("b_g2"));
    assert_eq!(count(&conn, "SELECT COUNT(*) FROM delete_log"), 0);
    assert!(any_reason(&res, "zero-bank-guard"));
}

#[test]
fn sync_guard_keeps_bank_and_questions_together() {
    check_guard_keeps_bank_and_questions_together();
}

#[test]
fn db_guard_keeps_bank_and_questions_together() {
    check_guard_keeps_bank_and_questions_together();
}

fn check_tomb_reapply_does_not_churn_synced() {
    let conn = test_conn();
    let mut seed = bundle("seed");
    seed["questions"] = Value::Array(vec![sync_q("q_tc", "bank_default", "2026-09-01T00:00:00.000Z")]);
    apply(&conn, &seed, SyncRole::Center);
    let mut push = bundle("d");
    push["tombstones"] = Value::Array(vec![tomb("q_tc", "question", Some("bank_default"), "2026-09-10T00:00:00.000Z")]);
    let r1 = apply(&conn, &push, SyncRole::Center);
    assert_eq!(r1["applied"]["tombstones"], 1);
    let s1: String = conn.query_row("SELECT synced_at FROM delete_log WHERE entity_id = 'q_tc'", [], |r| r.get(0)).unwrap();
    let r2 = apply(&conn, &push, SyncRole::Center);
    assert_eq!(r2["applied"]["tombstones"], 0);
    let s2: String = conn.query_row("SELECT synced_at FROM delete_log WHERE entity_id = 'q_tc'", [], |r| r.get(0)).unwrap();
    assert_eq!(s1, s2);
}

#[test]
fn sync_tomb_reapply_does_not_churn_synced() {
    check_tomb_reapply_does_not_churn_synced();
}

#[test]
fn db_tomb_reapply_does_not_churn_synced() {
    check_tomb_reapply_does_not_churn_synced();
}

fn check_bad_review_card_dropped_with_conflict() {
    let conn = test_conn();
    let mut q = sample_question();
    q["id"] = Value::from("q_bc");
    q["bank_id"] = Value::from("bank_default");
    insert_q(&conn, &q);
    let mut b = bundle("d");
    let card = val(r#"{
        "question_id": "q_bc", "due_at": "2026-09-20T00:00:00.000Z",
        "stability": 1.0, "difficulty": 1.0, "reps": 0, "lapses": 0,
        "state": 9, "learning_steps": 0, "scheduled_days": 0.0,
        "last_result": null, "last_reviewed_at": null,
        "updated_at": "2026-09-12T00:00:00.000Z"
    }"#);
    b["review_state"] = Value::Array(vec![card.clone()]);
    let res = apply(&conn, &b, SyncRole::Center);
    assert_eq!(count(&conn, "SELECT COUNT(*) FROM review_state"), 0);
    assert!(any_reason(&res, "bad-card-dropped"));
    let _ = card;
}

#[test]
fn sync_bad_review_card_dropped_with_conflict() {
    check_bad_review_card_dropped_with_conflict();
}

#[test]
fn db_bad_review_card_dropped_with_conflict() {
    check_bad_review_card_dropped_with_conflict();
}

fn check_bad_record_grade_dropped() {
    let conn = test_conn();
    let mut q = sample_question();
    q["id"] = Value::from("q_bg");
    q["bank_id"] = Value::from("bank_default");
    insert_q(&conn, &q);
    let mut b = bundle("d");
    b["questions"] = Value::Array(vec![sync_q("q_bg", "bank_default", "2026-09-10T00:00:00.000Z")]);
    b["records"] = Value::Array(vec![record_value("44444444-4444-7444-8444-444444444444", "q_bg", "bogus")]);
    let res = apply(&conn, &b, SyncRole::Center);
    assert_eq!(count(&conn, "SELECT COUNT(*) FROM practice_records"), 0);
    assert!(any_reason(&res, "bad-grade-dropped"));
}

#[test]
fn sync_bad_record_grade_dropped() {
    check_bad_record_grade_dropped();
}

#[test]
fn db_bad_record_grade_dropped() {
    check_bad_record_grade_dropped();
}

fn check_local_tomb_fields_survive_relog() {
    let conn = test_conn();
    conn.execute(
        "INSERT INTO delete_log (id, entity_type, entity_id, bank_id, deleted_at, actor, synced_at)
         VALUES ('tl', 'question', 'q_lf', 'b_keep', '2026-09-12T00:00:00.000Z', 'devA', '2026-09-12T00:00:00.000Z')",
        [],
    )
    .unwrap();
    let mut b = bundle("d");
    let t = tomb("q_lf", "question", Some("b_other"), "2026-09-10T00:00:00.000Z");
    b["tombstones"] = Value::Array(vec![t.clone()]);
    apply(&conn, &b, SyncRole::Center);
    let (bank, actor): (Option<String>, Option<String>) = conn
        .query_row("SELECT bank_id, actor FROM delete_log WHERE entity_id = 'q_lf'", [], |r| Ok((r.get(0)?, r.get(1)?)))
        .unwrap();
    assert_eq!(bank, Some("b_keep".to_string()));
    assert_eq!(actor, Some("devA".to_string()));
    let _ = t;
}

#[test]
fn sync_local_tomb_fields_survive_relog() {
    check_local_tomb_fields_survive_relog();
}

#[test]
fn db_local_tomb_fields_survive_relog() {
    check_local_tomb_fields_survive_relog();
}

fn dismiss_value(is_dismissed: i64, updated: &str, synced: &str) -> Value {
    let mut d = val(r#"{"question_id": "q_dm", "dismissed_at": "2026-09-12T00:00:00.000Z"}"#);
    d["is_dismissed"] = Value::from(is_dismissed);
    d["updated_at"] = Value::from(updated);
    d["synced_at"] = Value::from(synced);
    d
}

fn check_dismiss_undismiss_converges_by_lww() {
    let conn = test_conn();
    let mut q = sample_question();
    q["id"] = Value::from("q_dm");
    q["bank_id"] = Value::from("bank_default");
    insert_q(&conn, &q);
    let mut b = bundle("d1");
    b["wrong_dismiss"] = Value::Array(vec![dismiss_value(1, "2026-09-12T00:00:00.000Z", "2026-09-12T00:00:00.000Z")]);
    apply(&conn, &b, SyncRole::Center);
    let mut b2 = bundle("d2");
    b2["wrong_dismiss"] = Value::Array(vec![dismiss_value(0, "2026-09-13T00:00:00.000Z", "2026-09-13T00:00:00.000Z")]);
    apply(&conn, &b2, SyncRole::Center);
    assert_eq!(count(&conn, "SELECT is_dismissed FROM wrong_dismiss WHERE question_id = 'q_dm'"), 0);
    apply(&conn, &b, SyncRole::Center);
    assert_eq!(count(&conn, "SELECT is_dismissed FROM wrong_dismiss WHERE question_id = 'q_dm'"), 0);
}

#[test]
fn sync_dismiss_undismiss_converges_by_lww() {
    check_dismiss_undismiss_converges_by_lww();
}

#[test]
fn db_dismiss_undismiss_converges_by_lww() {
    check_dismiss_undismiss_converges_by_lww();
}

fn check_future_time_clamped() {
    let c = clamp_business_time(Some("2999-01-01T00:00:00.000Z"), "updated_at").unwrap();
    assert!(c.as_str() < "2999-01-01T00:00:00.000Z");
    assert_eq!(clamp_business_time(Some("2026-09-10T12:00:00.000Z"), "updated_at").unwrap(), "2026-09-10T12:00:00.000Z");
    assert!(clamp_business_time(Some("nope"), "updated_at").is_err());
}

#[test]
fn sync_future_time_clamped() {
    check_future_time_clamped();
}

#[test]
fn db_future_time_clamped() {
    check_future_time_clamped();
}
