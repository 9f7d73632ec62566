use qbank::db::Db;
use qbank::db::SqlValue;
use qbank::json::Json;
use qbank::schema::init_schema;
use qbank::sync::{apply_bundle, card_of, conflict_entry, sync_pull_impl, tombstone_fields, tombstone_row};
use qbank::merge::SyncRole;
use qbank::practice::{end_of_today, records_overview_impl, wrong_list_impl};
use qbank::backup::template_files;
use rusqlite::Connection;
use serde_json::Value;

fn val(text: &str) -> Value {
    serde_json::from_str(text).unwrap()
}

fn to_json(v: &Value) -> Json {
    Json::parse(&v.to_string()).unwrap()
}

fn to_value(j: &Json) -> Value {
    serde_json::from_str(&j.to_text()).unwrap()
}

fn test_conn() -> Connection {
    let conn = Connection::open_in_memory().unwrap();
    conn.execute_batch("PRAGMA foreign_keys=ON;").unwrap();
    init_schema(&mut Db::new(&conn)).unwrap();
    conn
}

#[test]
fn card_of_reads_every_member() {
    let s = to_json(&val(
        r#"{"question_id":"q1","stability":2.5,"difficulty":5,"reps":3,"lapses":1,"state":2,
            "learning_steps":0,"scheduled_days":4,"due_at":"2026-09-20T00:00:00.000Z",
            "last_result":"good","updated_at":"2026-09-10T00:00:00.000Z"}"#,
    ));
    let c = card_of(&s).unwrap();
    assert_eq!(c.stability, "2.5");
    assert_eq!(c.difficulty, "5");
    assert_eq!((c.reps, c.lapses, c.state, c.learning_steps), (3, 1, 2, 0));
    assert_eq!(c.scheduled_days, "4");
    assert_eq!(c.due_at, "2026-09-20T00:00:00.000Z");
    assert_eq!(c.last_result.as_deref(), Some("good"));
    assert!(c.last_reviewed_at.is_none());

    let missing = to_json(&val(r#"{"stability":2.5,"difficulty":5,"reps":3,"lapses":1,"state":2,"learning_steps":0,"scheduled_days":4}"#));
    assert!(matches!(card_of(&missing), Err(e) if e.contains("due_at")));
    let mistyped = to_json(&val(
        r#"{"stability":"2.5","difficulty":5,"reps":3,"lapses":1,"state":2,"learning_steps":0,"scheduled_days":4,"due_at":"x"}"#,
    ));
    assert!(matches!(card_of(&mistyped), Err(e) if e.contains("stability")));
}

#[test]
fn conflict_entry_and_tombstone_row_shapes() {
    let e = to_value(&conflict_entry("record", "r1", Json::from_str("kept"), Json::Null, "same-id-different-content"));
    assert_eq!(
        e,
        val(r#"{"entity_type":"record","entity_id":"r1","kept":"kept","dropped":null,"reason":"same-id-different-content"}"#)
    );
    let row = vec![
        SqlValue::Text("question".to_string()),
        SqlValue::Text("q1".to_string()),
        SqlValue::Null,
        SqlValue::Text("2026-09-10T00:00:00.000Z".to_string()),
        SqlValue::Text("dev".to_string()),
        SqlValue::Text("2026-09-11T00:00:00.000Z".to_string()),
    ];
    assert_eq!(
        to_value(&tombstone_row(&row)),
        val(r#"{"entity_type":"question","entity_id":"q1","bank_id":null,"deleted_at":"2026-09-10T00:00:00.000Z","actor":"dev","synced_at":"2026-09-11T00:00:00.000Z"}"#)
    );
    assert_eq!(tombstone_fields(), "entity_type, entity_id, bank_id, deleted_at, actor, synced_at");
    assert_eq!(template_files(), vec!["MD模板.md", "Excel模板.xlsx", "Word模板.docx"]);
}

#[test]
fn end_of_today_is_a_midnight() {
    let t = end_of_today().unwrap();
    assert!(t.ends_with("T00:00:00.000Z"), "{t}");
    assert!(t.as_str() > "2020-01-01");
}

#[test]
fn report_shapes_on_an_empty_store() {
    let conn = test_conn();
    let w = to_value(&wrong_list_impl(&mut Db::new(&conn), None, None, None, None, None).unwrap());
    assert_eq!(w["total"], 0);
    assert_eq!(w["items"], val("[]"));
    let o = to_value(&records_overview_impl(&mut Db::new(&conn), None).unwrap());
    assert_eq!(o["days"], val("[]"));
    assert_eq!(o["by_type"], val("[]"));
    let p = to_value(&sync_pull_impl(&mut Db::new(&conn), None).unwrap());
    assert!(p["server_time"].is_string());
    assert!(p["tombstone_floor"].is_null());
    for k in ["banks", "questions", "records", "review_state", "wrong_dismiss", "settings", "tombstones"] {
        assert!(p["bundle"][k].is_array(), "{k}");
    }
    assert_eq!(p["bundle"]["banks"][0]["id"], "bank_default");
}

#[test]
fn apply_refuses_a_bundle_with_a_malformed_item() {
    let conn = test_conn();
    let no_qid = val(r#"{"device_id":"d","records":[{"id":"r1","mode":"practice","grade":"good"}]}"#);
    assert!(apply_bundle(&mut Db::new(&conn), &to_json(&no_qid), SyncRole::Center).is_err());
    let no_key = val(r#"{"device_id":"d","settings":[{"value_json":"1","updated_at":"2026-09-10T00:00:00.000Z"}]}"#);
    assert!(apply_bundle(&mut Db::new(&conn), &to_json(&no_key), SyncRole::Leaf).is_err());
    let fine = val(r#"{"device_id":"d"}"#);
    let r = to_value(&apply_bundle(&mut Db::new(&conn), &to_json(&fine), SyncRole::Center).unwrap());
    assert_eq!(r["skipped"], 0);
    assert_eq!(r["conflicts"], val("[]"));
    assert!(r["applied"].is_object());
}

#[test]
fn stats_week_is_seven_consecutive_days() {
    let conn = test_conn();
    let st = to_value(&qbank::practice::review_stats_impl(&mut Db::new(&conn), None).unwrap());
    let week = st["records_7d"].as_array().unwrap();
    assert_eq!(week.len(), 7);
    let dates: Vec<String> = week.iter().map(|d| d["date"].as_str().unwrap().to_string()).collect();
    for w in dates.windows(2) {
        assert!(w[0] < w[1]);
    }
    let today = end_of_today().unwrap();
    let d_end = &today[..10];
    assert!(dates[6].as_str() < d_end);
    assert!(st["correct_rate"].is_null());
    for t in ["single", "multi", "judge", "fill", "short", "material"] {
        assert_eq!(st["by_type"][t], 0, "{t}");
    }
}

#[test]
fn import_counts_every_entry_and_refuses_bad_shapes() {
    let conn = test_conn();
    let doc = val(
        r#"{"version":4,"banks":[{"id":"b9","name":"B9"}],
            "questions":[
              {"id":"qa","type":"single","bank_id":"b9","stem":{"type":"doc","content":[]}},
              {"type":"fill","stem":{"type":"doc","content":[]}}
            ]}"#,
    );
    let r = to_value(&qbank::backup::import_dbjson_value(&mut Db::new(&conn), &to_json(&doc)).unwrap());
    assert_eq!(r["imported"], 2);
    assert_eq!(r["banks_imported"], 1);
    assert_eq!(r["settings_imported"], 0);
    assert!(qbank::backup::import_dbjson_value(&mut Db::new(&conn), &to_json(&val(r#"{"banks":[]}"#))).is_err());
    let no_id = val(r#"{"banks":[{"name":"x"}],"questions":[]}"#);
    assert!(qbank::backup::import_dbjson_value(&mut Db::new(&conn), &to_json(&no_id)).is_err());
    assert!(qbank::backup::import_dbjson_impl(&mut Db::new(&conn), "not json").is_err());
}
