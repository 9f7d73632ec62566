//! Backups: the full export document, the import of an exported file (which
//! deletes nothing, merges no tombstones and does not enter the sync log), and
//! the bundled import templates.
use vstd::prelude::*;
use crate::db::{Db, grew, Call, SqlV, args_view, committed, read_of, rows_read, objects_of, no_writes, rolled_back};
use crate::db::{SqlValue, Col, rows_as_objects, db_execute, begin, finish, text, opt_text};
use crate::json::{Json, JsonV, entry, json_parsed, json_text_valid, lemma_object_view, lemma_array_view, int_numeral};
use crate::text::{trim, trim_spec, cat, decimal};
use crate::clock::{now_iso, parse_rfc3339, rfc3339_instant};
use crate::ids::generate_id;
use crate::banks::{list_all_banks, resolve_default_bank};
use crate::questions::{query_questions, question_fields, question_field_kinds, upsert_question, question_written, QUESTION_UPSERT, lemma_question_written_grew};
use crate::schema::seed_default_bank;
use crate::sync::{db_meta_value, tombstone_fields, tombstone_rows, views};
use crate::doc::aggregated_plain_text;

verus! {

/// The import templates shipped with the application, by file name.
pub fn template_files() -> (r: Vec<&'static str>)
    ensures
        r.len() == template_names().len(),
        forall|i: int| 0 <= i < r.len() ==> (#[trigger] r@[i])@ == template_names()[i],
{
    vec!["MD模板.md", "Excel模板.xlsx", "Word模板.docx"]
}

/// The names of the shipped templates.
pub open spec fn template_names() -> Seq<Seq<char>> {
    seq!["MD模板.md"@, "Excel模板.xlsx"@, "Word模板.docx"@]
}

/// Every question, oldest first.
pub const EXPORT_QUESTIONS: &'static str = "SELECT id, bank_id, type, version, difficulty, score, status, stem_json, options_json, answer_json, analysis_json, children_json, plain_text, created_at, updated_at FROM questions ORDER BY created_at ASC";

/// The export document (format 4): banks, questions, settings and the
/// tombstone log, with the time and the database identity.
pub fn build_export_doc(db: &mut Db) -> (r: Result<Json, String>)
    ensures
        grew(old(db).log@, final(db).log@),
        r matches Ok(v) ==> v@.is_object(),
        r matches Ok(v) ==> final(db).log@.len() > old(db).log@.len()
            && read_of(final(db).log@[old(db).log@.len() as int], EXPORT_QUESTIONS@, seq![])
            && v@.field("version"@) == Some(JsonV::Num(int_numeral(4)))
            && v@.field("questions"@) == Some(objects_of(question_fields(), question_field_kinds(),
                rows_read(final(db).log@[old(db).log@.len() as int]))),
{
    let ghost n = db.log@.len() as int;
    let qargs: Vec<SqlValue> = vec![];
    assert(args_view(qargs@) =~= Seq::<SqlV>::empty());
    let questions = query_questions(db, EXPORT_QUESTIONS, &qargs)?;
    let ghost l1 = db.log@;
    let banks = list_all_banks(db)?;
    let db_uuid = match db_meta_value(db, "db_uuid")? {
        Some(u) => u,
        None => String::new(),
    };
    let settings = rows_as_objects(
        db,
        "SELECT key, value_json, updated_at FROM app_settings ORDER BY key ASC",
        &vec![],
        &vec!["key", "value_json", "updated_at"],
        &vec![Col::Plain, Col::Plain, Col::Plain],
    )?;
    let tomb_sql = crate::text::cat3("SELECT ", tombstone_fields(), " FROM delete_log ORDER BY synced_at ASC");
    let delete_log = tombstone_rows(db, tomb_sql.as_str(), &vec![])?;
    let now = now_iso()?;
    let es = vec![
        entry("version", Json::from_i64(4)),
        entry("exported_at", Json::Str(now)),
        entry("db_uuid", Json::Str(db_uuid)),
        entry("banks", Json::Array(banks)),
        entry("questions", Json::Array(questions)),
        entry("settings", Json::Array(settings)),
        entry("delete_log", Json::Array(delete_log)),
    ];
    proof {
        reveal_with_fuel(<Json as View>::view, 1);
        assert(db.log@[n] == l1[n]);
        lemma_object_view(es);
        reveal_strlit("version");
        reveal_strlit("exported_at");
        reveal_strlit("db_uuid");
        reveal_strlit("banks");
        reveal_strlit("questions");
        let o = Json::Object(es)@->Object_0;
        assert(o[0] == (es@[0].0@, es@[0].1@));
        assert(o[1] == (es@[1].0@, es@[1].1@));
        assert(o[2] == (es@[2].0@, es@[2].1@));
        assert(o[3] == (es@[3].0@, es@[3].1@));
        assert(o[4] == (es@[4].0@, es@[4].1@));
        assert(o[1].0.len() == 11 && o[3].0.len() == 5);
        assert(o[2].0[0] != "questions"@[0] && o[0].0[0] != "questions"@[0]);
        reveal_with_fuel(crate::json::lookup, 6);
    }
    Ok(Json::Object(es))
}

fn copy_items(a: &Vec<Json>) -> (r: Vec<Json>)
    ensures
        r@.map_values(|x: Json| x@) == a@.map_values(|x: Json| x@),
{
    let mut out: Vec<Json> = Vec::new();
    let mut i: usize = 0;
    while i < a.len()
        invariant
            0 <= i <= a.len(),
            out.len() == i,
            forall|k: int| 0 <= k < i ==> (#[trigger] out@[k])@ == a@[k]@,
        decreases a.len() - i,
    {
        out.push(a[i].clone_json());
        i = i + 1;
    }
    assert(out@.map_values(|x: Json| x@) =~= a@.map_values(|x: Json| x@));
    out
}

/// The questions of an export: its `questions` array, or the document itself
/// when it is a bare array; `None` for any other shape.
pub open spec fn dbjson_questions(root: JsonV) -> Option<Seq<JsonV>> {
    match root.field("questions"@) {
        Some(JsonV::Array(a)) => Some(a),
        _ => match root {
            JsonV::Array(a) => Some(a),
            _ => None,
        },
    }
}

/// The banks of an export: its `banks` array next to a `questions` array.
pub open spec fn dbjson_banks(root: JsonV) -> Seq<JsonV> {
    match root.field("questions"@) {
        Some(JsonV::Array(_)) => match root.field("banks"@) {
            Some(JsonV::Array(b)) => b,
            _ => seq![],
        },
        _ => seq![],
    }
}

/// A bank entry that can be imported: an object with a non-empty id.
pub open spec fn bank_entry_ok(b: JsonV) -> bool {
    &&& b.is_object()
    &&& b.field_text("id"@) matches Some(t) && t.len() > 0
}

/// What an import answers: every bank and question counted.
pub open spec fn import_counts(root: JsonV, j: JsonV) -> bool {
    &&& dbjson_questions(root) matches Some(qs) && j.field("imported"@) == Some(JsonV::Num(decimal(qs.len())))
    &&& j.field("banks_imported"@) == Some(JsonV::Num(decimal(dbjson_banks(root).len())))
    &&& j.field("settings_imported"@) matches Some(JsonV::Num(_))
}

fn or_now(v: Option<String>, now: &String) -> (r: String)
    ensures
        r@ == match v {
            Some(s) => if s@.len() > 0 { s@ } else { now@ },
            None => now@,
        },
{
    match v {
        Some(s) => if s.as_str().unicode_len() > 0 {
            s
        } else {
            now.clone()
        },
        None => now.clone(),
    }
}

fn set_default_now(q: &mut Json, key: &str, now: &str)
    requires
        old(q)@.is_object(),
    ensures
        final(q)@.is_object(),
        (old(q)@.field_text(key@) matches Some(t) && t.len() > 0) ==> final(q)@ == old(q)@,
        !(old(q)@.field_text(key@) matches Some(t) && t.len() > 0) ==> final(q)@.field(key@) == Some(JsonV::Str(now@)),
        forall|k: Seq<char>| k != key@ ==> final(q)@.field(k) == old(q)@.field(k),
{
    let missing = match q.get_str(key) {
        Some(s) => s.as_str().unicode_len() == 0,
        None => true,
    };
    if missing {
        q.set(key, Json::from_str(now));
    }
}

/// What an import does with one settings entry.
#[derive(Debug, PartialEq, Eq, Structural)]
pub enum SettingStep {
    /// A blank key, value or time: passed over.
    Skip,
    /// The value is not JSON: the import fails.
    BadJson,
    /// The time is not one chrono reads: the import fails.
    BadTime,
    /// Written where newer than the stored one.
    Write,
}

/// A member's text, or the empty text.
pub open spec fn member_or_empty(v: JsonV, k: Seq<char>) -> Seq<char> {
    match v.field_text(k) {
        Some(t) => t,
        None => Seq::empty(),
    }
}

/// The step for a settings entry: the trimmed key, the value and the time
/// must all be there, the value JSON and the time RFC 3339.
pub open spec fn setting_step_spec(st: JsonV) -> SettingStep {
    let key = trim_spec(member_or_empty(st, "key"@));
    let val = member_or_empty(st, "value_json"@);
    let upd = member_or_empty(st, "updated_at"@);
    if key.len() == 0 || val.len() == 0 || upd.len() == 0 {
        SettingStep::Skip
    } else if json_parsed(val) is None {
        SettingStep::BadJson
    } else if rfc3339_instant(upd) is None {
        SettingStep::BadTime
    } else {
        SettingStep::Write
    }
}

/// Decides what becomes of a settings entry, and hands back its trimmed key,
/// value and time.
pub fn setting_step(st: &Json) -> (r: (SettingStep, String, String, String))
    ensures
        r.0 == setting_step_spec(st@),
        r.1@ == trim_spec(member_or_empty(st@, "key"@)),
        r.2@ == member_or_empty(st@, "value_json"@),
        r.3@ == member_or_empty(st@, "updated_at"@),
{
    let key = match st.get_str("key") {
        Some(k) => trim(k.as_str()),
        None => trim(""),
    };
    proof {
        assert(trim_spec(Seq::<char>::empty()) == trim_spec(""@)) by {
            reveal_strlit("");
        }
    }
    let val = match st.get_str("value_json") {
        Some(v) => v,
        None => String::new(),
    };
    let updated = match st.get_str("updated_at") {
        Some(u) => u,
        None => String::new(),
    };
    if key.as_str().unicode_len() == 0 || val.as_str().unicode_len() == 0 || updated.as_str().unicode_len() == 0 {
        return (SettingStep::Skip, key, val, updated);
    }
    if Json::parse(val.as_str()).is_none() {
        return (SettingStep::BadJson, key, val, updated);
    }
    if parse_rfc3339(updated.as_str()).is_none() {
        return (SettingStep::BadTime, key, val, updated);
    }
    (SettingStep::Write, key, val, updated)
}

/// How many of the first `n` settings entries are written.
pub open spec fn writes_upto(a: Seq<JsonV>, n: int) -> nat
    decreases n,
{
    if n <= 0 {
        0
    } else {
        writes_upto(a, n - 1) + if setting_step_spec(a[n - 1]) == SettingStep::Write { 1nat } else { 0nat }
    }
}

/// The settings of an import: where `settings` is an array, no entry has a
/// bad value or time, and the count is that of the entries written.
pub open spec fn settings_imported_ok(root: JsonV, j: JsonV) -> bool {
    match root.field("settings"@) {
        Some(JsonV::Array(a)) => {
            &&& forall|i: int| 0 <= i < a.len() ==> #[trigger] setting_step_spec(a[i]) == SettingStep::Skip
                || setting_step_spec(a[i]) == SettingStep::Write
            &&& j.field("settings_imported"@) == Some(JsonV::Num(decimal(writes_upto(a, a.len() as int))))
        },
        _ => j.field("settings_imported"@) == Some(JsonV::Num(decimal(0))),
    }
}

/// Imports an exported file (formats 2 to 4): the text is parsed, then
/// imported as `import_dbjson_value` says. Text that is not JSON is an error.
pub fn import_dbjson_impl(db: &mut Db, text_in: &str) -> (r: Result<Json, String>)
    ensures
        grew(old(db).log@, final(db).log@),
        r is Ok ==> json_text_valid(text_in@),
        !json_text_valid(text_in@) ==> r is Err,
        json_parsed(text_in@) matches Some(root) && dbjson_questions(root) is None ==> r is Err,
        r matches Ok(j) ==> json_parsed(text_in@) matches Some(root) && import_counts(root, j@),
        r is Ok ==> committed(final(db).log@),
        r is Ok ==> import_written(
            final(db).log@,
            dbjson_banks(json_parsed(text_in@)->Some_0),
            dbjson_questions(json_parsed(text_in@)->Some_0).unwrap(),
        ),
        r is Err ==> no_writes(old(db).log@, final(db).log@) || rolled_back(final(db).log@),
{
    let root = Json::parse_text(text_in)?;
    import_dbjson_value(db, &root)
}

/// Imports an exported document in one transaction: banks and questions are
/// upserted by id (a question without a bank goes to the default bank),
/// settings are taken where newer. A document of neither accepted shape, a
/// bank entry that is not an object with an id, or a question entry that is
/// not an object, is an error and nothing is written.
/// `{imported, banks_imported, settings_imported}`.
pub fn import_dbjson_value(db: &mut Db, root: &Json) -> (r: Result<Json, String>)
    ensures
        grew(old(db).log@, final(db).log@),
        dbjson_questions(root@) is None ==> r is Err,
        r matches Ok(j) ==> {
            &&& import_counts(root@, j@)
            &&& settings_imported_ok(root@, j@)
            &&& forall|i: int| 0 <= i < dbjson_banks(root@).len() ==> bank_entry_ok(#[trigger] dbjson_banks(root@)[i])
            &&& forall|i: int|
                0 <= i < dbjson_questions(root@).unwrap().len() ==> (#[trigger] dbjson_questions(root@).unwrap()[i]).is_object()
        },
        r is Ok ==> committed(final(db).log@) && import_written(final(db).log@, dbjson_banks(root@), dbjson_questions(root@).unwrap()),
        r is Err ==> no_writes(old(db).log@, final(db).log@) || rolled_back(final(db).log@),
{
    let (questions, banks) = match root.get("questions") {
        Some(Json::Array(a)) => {
            let b = match root.get("banks") {
                Some(Json::Array(bs)) => copy_items(bs),
                _ => Vec::new(),
            };
            (copy_items(a), b)
        },
        _ => match root {
            Json::Array(a) => (copy_items(a), Vec::new()),
            _ => {
                return Err(
                    "invalid dbjson: expected {\"version\":2/3/4,\"banks\":[...],\"questions\":[...]} or an array".to_owned(),
                );
            },
        },
    };
    proof {
        reveal_with_fuel(<Json as View>::view, 2);
        assert(questions@.map_values(|x: Json| x@) == dbjson_questions(root@).unwrap());
        assert(banks@.map_values(|x: Json| x@) =~= dbjson_banks(root@));
    }
    begin(db)?;
    let body = import_tx(db, root, &questions, &banks);
    let ghost lb = db.log@;
    let r = finish(db, body);
    proof {
        if r is Ok {
            assert(views(banks@) == dbjson_banks(root@));
            assert(views(questions@) == dbjson_questions(root@).unwrap());
            lemma_import_written_grew(lb, db.log@, views(banks@), views(questions@));
        }
    }
    r
}

/// Imports a bank row, or updates the stored one.
pub const BANK_IMPORT: &'static str = "INSERT INTO banks (id, name, description, created_at, updated_at, synced_at) VALUES (?1, ?2, ?3, ?4, ?5, ?6)
             ON CONFLICT(id) DO UPDATE SET
               name = excluded.name,
               description = excluded.description,
               updated_at = excluded.updated_at,
               synced_at = excluded.synced_at";

/// The call imported the bank `id`.
pub open spec fn bank_run(c: Call, id: Seq<char>) -> bool {
    c matches Call::Run { sql: s, args: a, .. } && s == BANK_IMPORT@ && a.len() == 6 && a[0] == SqlV::Text(id)
}

/// The journal imported the bank `id`.
pub open spec fn bank_upserted(log: Seq<Call>, id: Seq<char>) -> bool {
    exists|k: int| 0 <= k < log.len() && bank_run(#[trigger] log[k], id)
}

/// The members an import fills in or recomputes.
pub open spec fn import_filled(k: Seq<char>) -> bool {
    k == "id"@ || k == "created_at"@ || k == "updated_at"@ || k == "version"@ || k == "bank_id"@ || k == "plain_text"@
        || k == "synced_at"@
}

/// The question keeps every member of the item but those filled in.
pub open spec fn kept_members(q: JsonV, item: JsonV) -> bool {
    forall|k: Seq<char>| !import_filled(k) ==> #[trigger] q.field(k) == item.field(k)
}

/// The journal stored a question made of the item.
pub open spec fn question_upserted_from(log: Seq<Call>, item: JsonV) -> bool {
    exists|q: JsonV| #[trigger] question_written(log, QUESTION_UPSERT@, q) && kept_members(q, item)
}

/// What an import wrote: every bank, and a question for every item.
pub open spec fn import_written(log: Seq<Call>, banks: Seq<JsonV>, questions: Seq<JsonV>) -> bool {
    &&& forall|k: int| 0 <= k < banks.len() ==> bank_upserted(log, #[trigger] banks[k].field_text("id"@)->Some_0)
    &&& forall|k: int| 0 <= k < questions.len() ==> question_upserted_from(log, #[trigger] questions[k])
}

proof fn lemma_import_written_grew(a: Seq<Call>, b: Seq<Call>, banks: Seq<JsonV>, questions: Seq<JsonV>)
    requires
        grew(a, b),
        import_written(a, banks, questions),
    ensures
        import_written(b, banks, questions),
{
    assert forall|k: int| 0 <= k < questions.len() implies question_upserted_from(b, #[trigger] questions[k]) by {
        let qq = choose|qq: JsonV| #[trigger] question_written(a, QUESTION_UPSERT@, qq) && kept_members(qq, questions[k]);
        lemma_question_written_grew(a, b, QUESTION_UPSERT@, qq);
    }
    assert forall|k: int| 0 <= k < banks.len() implies bank_upserted(b, #[trigger] banks[k].field_text("id"@)->Some_0) by {
        let kk = choose|kk: int| 0 <= kk < a.len() && bank_run(#[trigger] a[kk], banks[k].field_text("id"@)->Some_0);
        assert(b[kk] == a[kk]);
    }
}

fn import_tx(db: &mut Db, root: &Json, questions: &Vec<Json>, banks: &Vec<Json>) -> (r: Result<Json, String>)
    ensures
        grew(old(db).log@, final(db).log@),
        r matches Ok(j) ==> {
            &&& j@.field("imported"@) == Some(JsonV::Num(decimal(questions.len() as nat)))
            &&& j@.field("banks_imported"@) == Some(JsonV::Num(decimal(banks.len() as nat)))
            &&& j@.field("settings_imported"@) matches Some(JsonV::Num(_))
            &&& settings_imported_ok(root@, j@)
            &&& forall|i: int| 0 <= i < banks.len() ==> bank_entry_ok(#[trigger] banks@[i]@)
            &&& forall|i: int| 0 <= i < questions.len() ==> (#[trigger] questions@[i]@).is_object()
        },
        r is Ok ==> import_written(final(db).log@, views(banks@), views(questions@)),
{
    seed_default_bank(db)?;
    let mut banks_imported: u64 = 0;
    let mut i: usize = 0;
    while i < banks.len()
        invariant
            grew(old(db).log@, db.log@),
            0 <= i <= banks.len(),
            banks_imported == i,
            forall|k: int| 0 <= k < i ==> bank_entry_ok(#[trigger] banks@[k]@),
            forall|k: int| 0 <= k < i ==> bank_upserted(db.log@, #[trigger] banks@[k]@.field_text("id"@)->Some_0),
        decreases banks.len() - i,
    {
        let b = &banks[i];
        if !b.is_object() {
            return Err("dbjson: bank entry is not an object".to_owned());
        }
        let id = match b.get_str("id") {
            Some(s) => s,
            None => String::new(),
        };
        if id.as_str().unicode_len() == 0 {
            return Err("dbjson: bank entry missing id".to_owned());
        }
        let name = match b.get_str("name") {
            Some(s) => s,
            None => String::new(),
        };
        let fallback = now_iso()?;
        let created_at = or_now(b.get_str("created_at"), &fallback);
        let updated_at = or_now(b.get_str("updated_at"), &fallback);
        let now = now_iso()?;
        let ghost idv = id@;
        let args = vec![SqlValue::Text(id), SqlValue::Text(name), opt_text(&b.get_str("description")), SqlValue::Text(created_at), SqlValue::Text(updated_at), SqlValue::Text(now)];
        assert(args_view(args@).len() == 6 && args_view(args@)[0] == SqlV::Text(idv));
        let ghost lb = db.log@;
        db_execute(db, BANK_IMPORT, &args)?;
        proof {
            let l = db.log@;
            assert(bank_run(l[l.len() - 1], idv));
            assert forall|k: int| 0 <= k < i + 1 implies bank_upserted(l, #[trigger] banks@[k]@.field_text("id"@)->Some_0) by {
                if k < i {
                    let kk = choose|kk: int| 0 <= kk < lb.len() && bank_run(#[trigger] lb[kk], banks@[k]@.field_text("id"@)->Some_0);
                    assert(l[kk] == lb[kk]);
                }
            }
        }
        banks_imported = banks_imported + 1;
        i = i + 1;
    }
    let mut imported: u64 = 0;
    let mut i: usize = 0;
    while i < questions.len()
        invariant
            grew(old(db).log@, db.log@),
            0 <= i <= questions.len(),
            imported == i,
            forall|k: int| 0 <= k < i ==> (#[trigger] questions@[k]@).is_object(),
            forall|k: int| 0 <= k < banks.len() ==> bank_upserted(db.log@, #[trigger] banks@[k]@.field_text("id"@)->Some_0),
            forall|k: int| 0 <= k < i ==> question_upserted_from(db.log@, #[trigger] questions@[k]@),
        decreases questions.len() - i,
    {
        let ghost lq = db.log@;
        let mut q = questions[i].clone_json();
        if !q.is_object() {
            return Err("dbjson: question entry is not an object".to_owned());
        }
        let has_id = match q.get_str("id") {
            Some(s) => s.as_str().unicode_len() > 0,
            None => false,
        };
        if !has_id {
            q.set("id", Json::Str(generate_id()));
        }
        let now = now_iso()?;
        set_default_now(&mut q, "created_at", now.as_str());
        set_default_now(&mut q, "updated_at", now.as_str());
        let has_version = match q.get("version") {
            Some(v) => v.as_i64().is_some(),
            None => false,
        };
        if !has_version {
            q.set("version", Json::from_i64(2));
        }
        let has_bank = match q.get_str("bank_id") {
            Some(s) => s.as_str().unicode_len() > 0,
            None => false,
        };
        if !has_bank {
            let bid = resolve_default_bank(db)?;
            q.set("bank_id", Json::Str(bid));
        }
        let pt = aggregated_plain_text(&q);
        q.set("plain_text", Json::Str(pt));
        let stamp = now_iso()?;
        set_default_now(&mut q, "synced_at", stamp.as_str());
        proof {
            assert(kept_members(q@, questions@[i as int]@));
        }
        upsert_question(db, &q)?;
        proof {
            let l = db.log@;
            assert(question_upserted_from(l, questions@[i as int]@));
            assert forall|k: int| 0 <= k < i implies question_upserted_from(l, #[trigger] questions@[k]@) by {
                let qq = choose|qq: JsonV| #[trigger] question_written(lq, QUESTION_UPSERT@, qq) && kept_members(qq, questions@[k]@);
                lemma_question_written_grew(lq, l, QUESTION_UPSERT@, qq);
            }
            assert forall|k: int| 0 <= k < banks.len() implies bank_upserted(l, #[trigger] banks@[k]@.field_text("id"@)->Some_0) by {
                let kk = choose|kk: int| 0 <= kk < lq.len() && bank_run(#[trigger] lq[kk], banks@[k]@.field_text("id"@)->Some_0);
                assert(l[kk] == lq[kk]);
            }
        }
        imported = imported + 1;
        i = i + 1;
    }
    let ghost ls = db.log@;
    let mut settings_imported: u64 = 0;
    if let Some(Json::Array(arr)) = root.get("settings") {
        let ghost a = Json::Array(*arr)@->Array_0;
        proof {
            lemma_array_view(*arr);
        }
        let mut i: usize = 0;
        while i < arr.len()
            invariant
                grew(old(db).log@, db.log@),
                grew(ls, db.log@),
                0 <= i <= arr.len(),
                a.len() == arr.len(),
                forall|k: int| 0 <= k < arr.len() ==> #[trigger] a[k] == arr@[k]@,
                settings_imported == writes_upto(a, i as int),
                settings_imported <= i,
                forall|k: int| 0 <= k < i ==> #[trigger] setting_step_spec(a[k]) == SettingStep::Skip
                    || setting_step_spec(a[k]) == SettingStep::Write,
            decreases arr.len() - i,
        {
            let (step, key, val, updated) = setting_step(&arr[i]);
            assert(a[i as int] == arr@[i as int]@);
            match step {
                SettingStep::Skip => {},
                SettingStep::BadJson => {
                    return Err(cat("dbjson: bad setting json: ", key.as_str()));
                },
                SettingStep::BadTime => {
                    return Err(cat("dbjson: bad setting time: ", key.as_str()));
                },
                SettingStep::Write => {
                    db_execute(
                        db,
                        "INSERT INTO app_settings (key, value_json, updated_at) VALUES (?1, ?2, ?3)
                         ON CONFLICT(key) DO UPDATE SET value_json = excluded.value_json, updated_at = excluded.updated_at
                         WHERE excluded.updated_at > app_settings.updated_at",
                        &vec![SqlValue::Text(key), SqlValue::Text(val), SqlValue::Text(updated)],
                    )?;
                    settings_imported = settings_imported + 1;
                },
            }
            i = i + 1;
        }
    }
    let es = vec![
        entry("imported", Json::from_u64(imported)),
        entry("banks_imported", Json::from_u64(banks_imported)),
        entry("settings_imported", Json::from_u64(settings_imported)),
    ];
    proof {
        lemma_object_view(es);
        reveal_strlit("imported");
        reveal_strlit("banks_imported");
        reveal_strlit("settings_imported");
        let o = Json::Object(es)@->Object_0;
        assert(o[0] == (es@[0].0@, es@[0].1@));
        assert(o[1] == (es@[1].0@, es@[1].1@));
        assert(o[2] == (es@[2].0@, es@[2].1@));
        assert(o[0].0.len() == 8 && o[1].0.len() == 14 && o[2].0.len() == 17);
        reveal_with_fuel(crate::json::lookup, 4);
    }
    proof {
        let l = db.log@;
        assert forall|k: int| 0 <= k < questions.len() implies question_upserted_from(l, #[trigger] views(questions@)[k]) by {
            assert(views(questions@)[k] == questions@[k]@);
            let qq = choose|qq: JsonV| #[trigger] question_written(ls, QUESTION_UPSERT@, qq) && kept_members(qq, questions@[k]@);
            lemma_question_written_grew(ls, l, QUESTION_UPSERT@, qq);
        }
        assert forall|k: int| 0 <= k < banks.len() implies bank_upserted(l, #[trigger] views(banks@)[k].field_text("id"@)->Some_0) by {
            assert(views(banks@)[k] == banks@[k]@);
            let kk = choose|kk: int| 0 <= kk < ls.len() && bank_run(#[trigger] ls[kk], banks@[k]@.field_text("id"@)->Some_0);
            assert(l[kk] == ls[kk]);
        }
    }
    Ok(Json::Object(es))
}

} // verus!
