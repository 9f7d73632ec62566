use qbank::db::Db;
use qbank::practice::card_is_newer;
use qbank::questions::{import_step, ImportStep};
use qbank::questions::import_bank;
use qbank::db::SqlValue;
use qbank::sync::delta_window;
use qbank::blobs::{registry_of, scan_from, used_pairs};
use qbank::questions::{field_params, QuestionFields};
use qbank::practice::{stats_object, StatCounts};
use qbank::sync::{record_step, ItemStep};
use qbank::json::Json;
use qbank::schema::init_schema;
use rusqlite::Connection;
use serde_json::Value;

fn val(text: &str) -> Value {
    serde_json::from_str(text).unwrap()
}

fn to_json(v: &Value) -> Json {
    Json::parse(&v.to_string()).unwrap()
}

fn to_value(j: &Json) -> Value {
    serde_json::from_str(&j.to_text()).unwrap()
}

fn sample_question() -> Value {
    val(r#"{
        "id": "q_test_1",
        "type": "single",
        "version": 2,
        "difficulty": 2,
        "score": 5,
        "status": "published",
        "stem": {"type": "doc", "content": [{"type": "paragraph", "content": [{"type": "text", "text": "1+1=?"}]}]},
        "options": [
            {"id": "o1", "content": {"type": "doc", "content": [{"type": "paragraph", "content": [{"type": "text", "text": "2"}]}]}},
            {"id": "o2", "content": {"type": "doc", "content": [{"type": "paragraph", "content": [{"type": "text", "text": "3"}]}]}}
        ],
        "answer": {"ids": ["o1"]},
        "analysis": null,
        "plain_text": "1+1=? 2 3",
        "created_at": "2026-09-10T12:00:00.000Z",
        "updated_at": "2026-09-10T12:00:00.000Z"
    }"#)
}

fn test_conn() -> Connection {
    let conn = Connection::open_in_memory().unwrap();
    conn.execute_batch("PRAGMA foreign_keys=ON;").unwrap();
    init_schema(&mut Db::new(&conn)).unwrap();
    conn
}

fn insert_q(conn: &Connection, q: &Value) {
    qbank::questions::insert_question(&mut Db::new(conn), &to_json(q)).unwrap();
}

fn fetch_q(conn: &Connection, id: &str) -> Option<Value> {
    qbank::questions::fetch_question(&mut Db::new(conn), id).unwrap().map(|q| to_value(&q))
}

fn fetch_b(conn: &Connection, id: &str) -> Option<Value> {
    qbank::banks::fetch_bank(&mut Db::new(conn), id).unwrap().map(|b| to_value(&b))
}

fn count(conn: &Connection, sql: &str) -> i64 {
    conn.query_row(sql, [], |r| r.get(0)).unwrap()
}
use qbank::assets::{asset_mime_ext, asset_path_for, is_asset_sha};
use qbank::blobs::{
    assets_gc_finish, assets_gc_scan, assets_gc_unused, assets_gc_used_places, assets_resolve_plan, assets_resolve_result, hex_string,
    prepare_asset, register_asset, sha256_hex,
};
use qbank::clock::{clamp_time_at, fmt_iso};
use qbank::practice::{correct_rate, leave_after, nonneg_number_exec, record_content_eq, StoredRecord};
use qbank::questions::{capped_limit, extract_fields};
use qbank::sync::floor_at;
use qbank::text::{collapse_whitespace, str_lt, to_str, trim};

// base64 of the 8 bytes of a PNG signature.
const PNG_B64: &str = "iVBORw0KGgo=";
const PNG_SHA: &str = "4c4b6a3be1314ab86138bef4314dde022e600960d8689a2c8f8631802d20dab6";

#[test]
fn sha256_hex_of_known_inputs() {
    assert_eq!(sha256_hex(&b"abc".to_vec()), "ba7816bf8f01cfea414140de5dae2223b00361a396177a9cb410ff61f20015ad");
    assert_eq!(sha256_hex(&Vec::new()), "e3b0c44298fc1c149afbf4c8996fb92427ae41e4649b934ca495991b7852b855");
    assert_eq!(hex_string(&vec![0u8, 15, 16, 255]), "000f10ff");
}

#[test]
fn prepare_asset_places_by_content() {
    let a = prepare_asset(&format!("  {PNG_B64}\n"), " image/png ").unwrap();
    assert_eq!(a.bytes.len(), 8);
    assert_eq!(a.sha, sha256_hex(&a.bytes));
    assert_eq!(a.sha, PNG_SHA);
    assert_eq!(a.dir, &PNG_SHA[..2]);
    assert_eq!(a.file, format!("{}.png", &PNG_SHA[2..]));
    let b = prepare_asset(PNG_B64, "image/png").unwrap();
    assert_eq!(a.sha, b.sha);
}

#[test]
fn prepare_asset_errors() {
    assert_eq!(prepare_asset(PNG_B64, "image/svg+xml").err().unwrap(), "不支持的图片格式（仅 webp/png/jpeg/gif）");
    assert_eq!(prepare_asset("***", "image/png").err().unwrap(), "图片数据损坏（base64 非法）");
    assert_eq!(prepare_asset("", "image/png").err().unwrap(), "图片大小非法（空或超过 20MB）");
}

#[test]
fn asset_helpers() {
    assert_eq!(asset_mime_ext(" image/jpeg "), Some("jpg"));
    assert_eq!(asset_mime_ext("image/bmp"), None);
    assert!(is_asset_sha(PNG_SHA));
    assert!(!is_asset_sha("xyz"));
    assert!(asset_path_for("nope", "png").is_err());
}

#[test]
fn asset_registry_resolve_and_collect() {
    let conn = test_conn();
    let a = prepare_asset(PNG_B64, "image/png").unwrap();
    register_asset(&mut Db::new(&conn), &a.sha, " image/png ", a.bytes.len(), Some(1), Some(1)).unwrap();
    register_asset(&mut Db::new(&conn), &a.sha, "image/png", a.bytes.len(), None, None).unwrap();
    assert_eq!(count(&conn, "SELECT COUNT(*) FROM assets"), 1);
    let mime: String = conn.query_row("SELECT mime FROM assets", [], |r| r.get(0)).unwrap();
    assert_eq!(mime, "image/png");

    let shas = vec![a.sha.clone(), "unknown".to_string(), a.sha.clone()];
    let plan = assets_resolve_plan(&mut Db::new(&conn), &shas).unwrap();
    assert_eq!(plan.len(), 2);
    assert_eq!(plan[0].place, Some((a.dir.clone(), a.file.clone())));
    assert!(plan[1].place.is_none());
    let res = to_value(&assets_resolve_result(&vec![plan[0].sha.clone(), plan[1].sha.clone()], &vec![Some("/x".to_string()), None]));
    assert_eq!(res["items"][0]["path"], "/x");
    assert!(res["items"][1]["path"].is_null());
    assert!(assets_resolve_plan(&mut Db::new(&conn), &vec![String::new(); 201]).is_err());

    // one question refers to the registered image and to a missing one
    let mut q = sample_question();
    q["id"] = Value::from("q_img");
    q["bank_id"] = Value::from("bank_default");
    let missing = "1".repeat(64);
    q["stem"] = val(&format!(
        r#"{{"type":"doc","content":[{{"type":"imageBlock","attrs":{{"src":"asset:{}"}}}},{{"type":"imageBlock","attrs":{{"src":"asset:{}"}}}}]}}"#,
        a.sha, missing
    ));
    insert_q(&conn, &q);
    let other = prepare_asset("AAAA", "image/gif").unwrap();
    register_asset(&mut Db::new(&conn), &other.sha, "image/gif", other.bytes.len(), None, None).unwrap();

    let scan = assets_gc_scan(&mut Db::new(&conn)).unwrap();
    assert_eq!(scan.scanned, 1);
    assert_eq!(scan.used.len(), 2);
    let unused = assets_gc_unused(&scan);
    assert_eq!(unused.len(), 1);
    assert_eq!(unused[0].0, other.sha);
    let places = assets_gc_used_places(&scan);
    let exists: Vec<bool> = places.iter().map(|p| p.is_some()).collect();
    let report = to_value(&assets_gc_finish(&mut Db::new(&conn), &scan, &exists).unwrap());
    assert_eq!(report["removed"], 1);
    assert_eq!(report["freed_bytes"], 3);
    assert_eq!(report["total"], 2);
    assert_eq!(report["dangling"].as_array().unwrap().len(), 1);
    assert_eq!(report["dangling"][0]["sha"], Value::from(missing));
    assert_eq!(count(&conn, "SELECT COUNT(*) FROM assets"), 1);
}

#[test]
fn clamp_at_fixed_now() {
    let now = (1_800_000_000i64, 0u32);
    let now_text = fmt_iso(now).unwrap();
    assert_eq!(clamp_time_at(None, "t", now).unwrap(), now_text);
    assert_eq!(clamp_time_at(Some("  "), "t", now).unwrap(), now_text);
    assert_eq!(clamp_time_at(Some("2026-09-10T12:00:00Z"), "t", now).unwrap(), "2026-09-10T12:00:00.000Z");
    assert_eq!(clamp_time_at(Some("2026-09-10T20:00:00+08:00"), "t", now).unwrap(), "2026-09-10T12:00:00.000Z");
    assert_eq!(clamp_time_at(Some("2999-01-01T00:00:00.000Z"), "t", now).unwrap(), now_text);
    // at most a minute ahead is kept
    let ahead = fmt_iso((now.0 + 60, 0)).unwrap();
    assert_eq!(clamp_time_at(Some(&ahead), "t", now).unwrap(), ahead);
    let past = fmt_iso((now.0 + 61, 0)).unwrap();
    assert_eq!(clamp_time_at(Some(&past), "t", now).unwrap(), now_text);
    assert_eq!(clamp_time_at(Some("nope"), "answered_at", now).unwrap_err(), "invalid answered_at: nope");
}

#[test]
fn floor_at_ninety_days() {
    let now = (1_800_000_000i64, 0u32);
    assert_eq!(floor_at(None, now).unwrap(), None);
    let young = fmt_iso((now.0 - 86_400, 0)).unwrap();
    assert_eq!(floor_at(Some(&young), now).unwrap(), None);
    let old = fmt_iso((now.0 - 100 * 86_400, 0)).unwrap();
    assert_eq!(floor_at(Some(&old), now).unwrap(), Some(fmt_iso((now.0 - 90 * 86_400, 0)).unwrap()));
    assert!(floor_at(Some("garbage"), now).is_err());
}

#[test]
fn correct_rate_one_decimal() {
    assert_eq!(correct_rate(0, 0).to_text(), "null");
    assert_eq!(correct_rate(1, 1).to_text(), "100.0");
    assert_eq!(correct_rate(2, 3).to_text(), "66.7");
    assert_eq!(correct_rate(1, 3).to_text(), "33.3");
    assert_eq!(correct_rate(1, 8).to_text(), "12.5");
    assert_eq!(correct_rate(1, 2000).to_text(), "0.1");
    assert_eq!(correct_rate(0, 5).to_text(), "0.0");
}

#[test]
fn nonneg_numbers() {
    assert!(nonneg_number_exec("0"));
    assert!(nonneg_number_exec("2.5"));
    assert!(nonneg_number_exec("-0.0"));
    assert!(nonneg_number_exec("1e-5"));
    assert!(!nonneg_number_exec("-0.5"));
    assert!(!nonneg_number_exec("-1e-3"));
    assert!(!nonneg_number_exec("NaN"));
    assert!(!nonneg_number_exec(""));
}

#[test]
fn record_content_compares_all_but_stamp() {
    let st = StoredRecord {
        question_id: "q".to_string(),
        mode: "review".to_string(),
        grade: "good".to_string(),
        correct: 1,
        answered_at: "t".to_string(),
        elapsed_ms: Some(3),
        detail_json: None,
        fsrs_log: Some("{}".to_string()),
    };
    assert!(record_content_eq(&st, "q", "review", "good", 1, "t", Some(3), None, Some("{}")));
    assert!(!record_content_eq(&st, "q", "review", "good", 1, "t", Some(4), None, Some("{}")));
    assert!(!record_content_eq(&st, "q", "review", "good", 1, "t", Some(3), Some("{}"), Some("{}")));
    assert!(!record_content_eq(&st, "q", "exam", "good", 1, "t", Some(3), None, Some("{}")));
}

#[test]
fn limits_and_thresholds() {
    assert_eq!(capped_limit(None, 20), 20);
    assert_eq!(capped_limit(Some(7), 20), 7);
    assert_eq!(capped_limit(Some(10_000), 20), 500);
    assert_eq!(leave_after(None), 1);
    assert_eq!(leave_after(Some(0)), 1);
    assert_eq!(leave_after(Some(5)), 5);
    assert_eq!(leave_after(Some(99)), 10);
}

#[test]
fn extract_fields_errors_and_defaults() {
    assert_eq!(extract_fields(&to_json(&val("[]"))).err().unwrap(), "question data must be a JSON object");
    assert_eq!(extract_fields(&to_json(&val(r#"{"id": ""}"#))).err().unwrap(), "missing id");
    assert_eq!(extract_fields(&to_json(&val(r#"{"id": "a"}"#))).err().unwrap(), "missing type");
    assert_eq!(extract_fields(&to_json(&val(r#"{"id": "a", "type": "single"}"#))).err().unwrap(), "missing created_at");
    let f = extract_fields(&to_json(&val(
        r#"{"id": "a", "type": "single", "created_at": "c", "updated_at": "u", "status": "", "score": "x", "options": null, "answer": {"ids": []}, "synced_at": "s"}"#,
    )))
    .unwrap();
    assert_eq!(f.version, 2);
    assert_eq!(f.difficulty, 2);
    assert_eq!(f.status, "published");
    assert_eq!(f.score, None);
    assert_eq!(f.stem_json, "null");
    assert_eq!(f.options_json, None);
    assert_eq!(f.answer_json, Some(r#"{"ids":[]}"#.to_string()));
    assert_eq!(f.plain_text, "");
    assert_eq!(f.synced_at, "s");
}

#[test]
fn text_helpers() {
    assert_eq!(collapse_whitespace("a \t\n b  c"), "a b c");
    assert_eq!(trim("  x y \n"), "x y");
    assert!(str_lt("2026-09-10", "2026-09-11"));
    assert!(!str_lt("b", "a"));
    assert_eq!(to_str(42), "42");
}

#[test]
fn trim_and_collapse_are_idempotent() {
    for x in ["  a \t b\n\n c  ", "", "   ", "x", "\u{3000}全角\u{3000}空白 "] {
        let t = trim(x);
        assert_eq!(trim(&t), t);
        let c = collapse_whitespace(x);
        assert_eq!(collapse_whitespace(&c), c);
    }
    assert_eq!(collapse_whitespace("  a \t b\n\n c  "), " a b c ");
}

#[test]
fn display_url_reads_back_its_sha() {
    let prefix = "http://asset.localhost/C%3A%5CUsers%5Cme%5Cdata%5Cassets%5C";
    for mime in ["image/webp", "image/png", "image/jpeg", "image/gif"] {
        let ext = asset_mime_ext(mime).unwrap();
        let (dir, file) = asset_path_for(PNG_SHA, ext).unwrap();
        let url = format!("{prefix}{dir}%5C{file}");
        assert_eq!(qbank::assets::extract_asset_sha(&url).as_deref(), Some(PNG_SHA), "{url}");
        let bare = format!("{dir}%5C{file}");
        assert_eq!(qbank::assets::extract_asset_sha(&bare).as_deref(), Some(PNG_SHA), "{bare}");
    }
}

#[test]
fn tail_sha_takes_the_last_separator_of_any_kind() {
    let before = format!("C%3A%5Cdata/ab/{}", "c".repeat(62));
    assert_eq!(qbank::assets::tail_sha(&before), Some(format!("ab{}", "c".repeat(62))));
    let enc = format!("x/y%5Cab%5C{}", "d".repeat(62));
    assert_eq!(qbank::assets::tail_sha(&enc), Some(format!("ab{}", "d".repeat(62))));
}

#[test]
fn import_step_checks_the_batch_before_the_bank() {
    let seen = vec!["a b".to_string()];
    assert_eq!(import_step("a b", &seen, true), ImportStep::InBatch);
    assert_eq!(import_step("a b", &seen, false), ImportStep::InBatch);
    assert_eq!(import_step("c", &seen, true), ImportStep::InBank);
    assert_eq!(import_step("c", &seen, false), ImportStep::Create);
}

#[test]
fn import_bank_refuses_a_missing_bank() {
    assert_eq!(import_bank(Some("b1".to_string()), true), Ok(Some("b1".to_string())));
    assert_eq!(import_bank(Some("nope".to_string()), false), Err("bank not found: nope".to_string()));
    assert_eq!(import_bank(None, false), Ok(None));
}

#[test]
fn delta_window_binds_cursor_and_server_time() {
    let w = delta_window(Some("2026-01-01T00:00:00.000Z"), "2026-02-01T00:00:00.000Z");
    assert_eq!(w.len(), 2);
    assert!(matches!(&w[0], SqlValue::Text(t) if t == "2026-01-01T00:00:00.000Z"));
    assert!(matches!(&w[1], SqlValue::Text(t) if t == "2026-02-01T00:00:00.000Z"));
    let w = delta_window(None, "2026-02-01T00:00:00.000Z");
    assert!(matches!(&w[0], SqlValue::Text(t) if t.is_empty()));
}

fn question_row(sha: &str, other: &str) -> Vec<qbank::db::SqlValue> {
    let stem = format!(r#"{{"type":"doc","content":[{{"type":"image","attrs":{{"src":"asset:{}"}}}}]}}"#, sha);
    let answer = format!(r#"["asset:{}","asset:{}"]"#, other, sha);
    vec![
        SqlValue::Text("q1".to_string()),
        SqlValue::Text(stem),
        SqlValue::Null,
        SqlValue::Text(answer),
        SqlValue::Text("not json".to_string()),
        SqlValue::Null,
    ]
}

#[test]
fn gc_scan_pairs_questions_with_their_assets() {
    let sha = "a".repeat(64);
    let other = "b".repeat(64);
    let reg = vec![vec![SqlValue::Text(sha.clone()), SqlValue::Text("image/png".to_string()), SqlValue::Int(10)]];
    let r = registry_of(&reg).unwrap();
    assert_eq!(r.len(), 1);
    assert_eq!(r[0].sha, sha);
    assert_eq!(r[0].mime, "image/png");
    assert_eq!(r[0].size, 10);
    let bad = vec![vec![SqlValue::Text(sha.clone()), SqlValue::Null, SqlValue::Int(10)]];
    assert!(registry_of(&bad).is_err());
    let used = used_pairs(&vec![question_row(&sha, &other)]);
    assert_eq!(used.len(), 2);
    assert!(used.contains(&("q1".to_string(), sha.clone())));
    assert!(used.contains(&("q1".to_string(), other.clone())));
    let scan = scan_from(&reg, &vec![question_row(&sha, &other)]).unwrap();
    assert_eq!(scan.scanned, 1);
    assert_eq!(scan.registered.len(), 1);
    assert_eq!(scan.used.len(), 2);
    assert!(scan_from(&bad, &vec![]).is_err());
}

#[test]
fn field_params_follow_the_column_order() {
    let f = QuestionFields {
        id: "q1".to_string(),
        bank_id: None,
        typ: "single".to_string(),
        version: 2,
        difficulty: 3,
        score: Some("5".to_string()),
        status: "published".to_string(),
        stem_json: "null".to_string(),
        options_json: Some("[]".to_string()),
        answer_json: None,
        analysis_json: None,
        children_json: None,
        plain_text: "x".to_string(),
        created_at: "c".to_string(),
        updated_at: "u".to_string(),
        synced_at: "s".to_string(),
    };
    let p = field_params(&f);
    assert_eq!(p.len(), 16);
    assert!(matches!(&p[0], SqlValue::Text(t) if t == "q1"));
    assert!(matches!(&p[1], SqlValue::Null));
    assert!(matches!(&p[3], SqlValue::Int(2)));
    assert!(matches!(&p[4], SqlValue::Int(3)));
    assert!(matches!(&p[5], SqlValue::Text(t) if t == "5"));
    assert!(matches!(&p[8], SqlValue::Text(t) if t == "[]"));
    assert!(matches!(&p[9], SqlValue::Null));
    assert!(matches!(&p[15], SqlValue::Text(t) if t == "s"));
}

#[test]
fn stats_object_carries_the_counts_and_the_rate() {
    let c = StatCounts {
        total: 2,
        due_total: 1,
        due_today: 2,
        learning_due: 0,
        practiced_total: 4,
        practiced_today: 1,
        rec_correct: 3,
        rec_total: 4,
    };
    let by_type = to_json(&val(r#"{"single":2,"multi":0,"judge":0,"fill":0,"short":0,"material":0}"#));
    let v = to_value(&stats_object(&c, by_type, vec![]));
    assert_eq!(v["total"], 2);
    assert_eq!(v["due_today"], 2);
    assert_eq!(v["practiced_total"], 4);
    assert_eq!(v["correct_rate"].as_f64(), Some(75.0));
    assert_eq!(v["by_type"]["single"], 2);
    let none = StatCounts { rec_correct: 0, rec_total: 0, ..c };
    let by_type = to_json(&val(r#"{}"#));
    let v = to_value(&stats_object(&none, by_type, vec![]));
    assert!(v["correct_rate"].is_null());
}

#[test]
fn record_step_drops_orphans_first() {
    let r = to_json(&val(r#"{"id":"r1","question_id":"q1","mode":"practice","grade":"good"}"#));
    assert_eq!(record_step(&r, false, true), ItemStep::Orphan);
    assert_eq!(record_step(&r, true, false), ItemStep::Orphan);
    let bad = to_json(&val(r#"{"id":"r1","question_id":"q1","mode":"practice","grade":"bogus"}"#));
    assert_eq!(record_step(&bad, true, true), ItemStep::Bad);
    assert_eq!(record_step(&r, true, true), ItemStep::Apply);
}

#[test]
fn card_is_newer_compares_update_times() {
    assert!(card_is_newer(&None, "2026-01-01T00:00:00.000Z"));
    assert!(card_is_newer(&Some("2025-12-31T00:00:00.000Z".to_string()), "2026-01-01T00:00:00.000Z"));
    assert!(!card_is_newer(&Some("2026-01-01T00:00:00.000Z".to_string()), "2026-01-01T00:00:00.000Z"));
    assert!(!card_is_newer(&Some("2026-02-01T00:00:00.000Z".to_string()), "2026-01-01T00:00:00.000Z"));
}

#[test]
fn the_last_bank_is_kept() {
    assert_eq!(qbank::banks::bank_remove_check(false, 3), Err("Not Found".to_string()));
    assert_eq!(qbank::banks::bank_remove_check(true, 1), Err("至少保留一个题库".to_string()));
    assert_eq!(qbank::banks::bank_remove_check(true, 2), Ok(()));
}

#[test]
fn setting_step_checks_value_and_time() {
    use_setting_step();
}

fn use_setting_step() {
    let step = |text: &str| qbank::backup::setting_step(&to_json(&val(text)));
    let (s, k, v, u) = step(r#"{"key":" theme ","value_json":"\"dark\"","updated_at":"2026-01-01T00:00:00.000Z"}"#);
    assert_eq!(s, qbank::backup::SettingStep::Write);
    assert_eq!(k, "theme");
    assert_eq!(v, "\"dark\"");
    assert_eq!(u, "2026-01-01T00:00:00.000Z");
    assert_eq!(step(r#"{"key":"","value_json":"1","updated_at":"x"}"#).0, qbank::backup::SettingStep::Skip);
    assert_eq!(step(r#"{"key":"a","value_json":"{oops","updated_at":"2026-01-01T00:00:00Z"}"#).0, qbank::backup::SettingStep::BadJson);
    assert_eq!(step(r#"{"key":"a","value_json":"1","updated_at":"yesterday"}"#).0, qbank::backup::SettingStep::BadTime);
}

#[test]
fn the_same_image_goes_to_the_same_file() {
    let a = qbank::blobs::prepare_asset("aGVsbG8=", "image/png").unwrap();
    let b = qbank::blobs::prepare_asset("  aGVsbG8=\n", "image/png").unwrap();
    assert_eq!(a.sha, "2cf24dba5fb0a30e26e83b2ac5b9e29e1b161e5c1fa7425e73043362938b9824");
    assert_eq!((a.dir.clone(), a.file.clone()), (b.dir, b.file));
    assert_eq!(a.dir, "2c");
    assert!(a.file.ends_with(".png"));
}

#[test]
fn a_new_question_gets_its_defaults() {
    let q = to_json(&val(r#"{"type":"single","status":"","version":"x","stem":"s"}"#));
    let f = to_value(&qbank::questions::fill_new_question(q, "q9", "2026-01-01T00:00:00.000Z", Some("bank_default".to_string())));
    assert_eq!(f["id"], "q9");
    assert_eq!(f["created_at"], "2026-01-01T00:00:00.000Z");
    assert_eq!(f["updated_at"], "2026-01-01T00:00:00.000Z");
    assert_eq!(f["status"], "published");
    assert_eq!(f["version"], 2);
    assert_eq!(f["bank_id"], "bank_default");
    assert_eq!(f["type"], "single");
    let kept = to_json(&val(r#"{"bank_id":"b2","created_at":"2025-01-01T00:00:00.000Z"}"#));
    let f = to_value(&qbank::questions::fill_new_question(kept, "q9", "2026-01-01T00:00:00.000Z", None));
    assert_eq!(f["bank_id"], "b2");
    assert_eq!(f["created_at"], "2025-01-01T00:00:00.000Z");
}

#[test]
fn ready_to_store_numbers_children_and_refuses_bad_ones() {
    let q = to_json(&val(r#"{"type":"material","stem":"intro","children":[{"type":"single","stem":"a"},{"id":"keep","type":"single","stem":"b"}]}"#));
    let p = to_value(&qbank::questions::ready_to_store(&q, "m1", &vec![]).unwrap());
    assert!(p["plain_text"].is_string());
    assert_eq!(p["children"][1]["id"], "keep");
    assert!(p["children"][0]["id"].is_string());
    let bad = to_json(&val(r#"{"type":"material","children":[1]}"#));
    assert_eq!(qbank::questions::ready_to_store(&bad, "m1", &vec![]).err(), Some("question children must be objects".to_string()));
}

#[test]
fn an_import_item_drops_its_id_and_takes_the_bank() {
    let item = to_json(&val(r#"{"id":"client","type":"single","stem":"s","bank_id":"other"}"#));
    let q = to_value(&qbank::questions::import_base_of(&item, "b1"));
    assert!(q.get("id").is_none());
    assert_eq!(q["bank_id"], "b1");
    assert_eq!(q["type"], "single");
    assert_eq!(q["stem"], "s");
}
