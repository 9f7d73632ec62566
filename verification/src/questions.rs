//! Questions: rows and their JSON form, create/update/remove, listing, and
//! batch import with de-duplication by plain text.
use vstd::prelude::*;
use crate::db::{Db, grew, Call, SqlV, ran, is_run, run_of, args_view, committed, int_read, no_writes, rolled_back};
use crate::db::{SqlValue, Col, read_of, rows_read, objects_of, row_object, rows_as_objects, keyed_as, db_execute, db_query, query_int, query_exists, begin, finish, col_json, col_num, col_text, text, opt_text};
use crate::json::{Json, JsonV, entry, json_parsed, json_text_of, int_numeral, lemma_object_view, lemma_array_view, lemma_two_fields, lemma_lookup_some};
use crate::text::{cat, cat3, str_eq, is_blank, blank, decimal};
use crate::clock::now_iso;
use crate::ids::generate_id;
use crate::doc::{aggregated_plain_text, aggregated_spec, ensure_child_ids, children_ok, numbered_child};
use crate::assets::{normalized_asset_srcs, contains_str, listed, norm_ok, norm_val};
use crate::banks::resolve_default_bank;
use crate::sync::{write_tombstone, views, tomb_logged, lemma_tomb_logged_grew};
use crate::plan::oview;

verus! {

/// The question columns, in the order `row_to_question` reads them.
pub const SELECT_FIELDS: &'static str = "id, bank_id, type, version, difficulty, score, status, stem_json, options_json, answer_json, analysis_json, children_json, plain_text, created_at, updated_at";

/// The question columns.
pub fn select_fields() -> (r: &'static str)
    ensures
        r@ == SELECT_FIELDS@,
{
    SELECT_FIELDS
}

/// `select_fields` qualified by the alias `q`.
pub fn select_fields_q() -> (r: &'static str)
    ensures
        r@ == "q.id, q.bank_id, q.type, q.version, q.difficulty, q.score, q.status, q.stem_json, q.options_json, q.answer_json, q.analysis_json, q.children_json, q.plain_text, q.created_at, q.updated_at"@,
{
    "q.id, q.bank_id, q.type, q.version, q.difficulty, q.score, q.status, q.stem_json, q.options_json, q.answer_json, q.analysis_json, q.children_json, q.plain_text, q.created_at, q.updated_at"
}

/// The columns of a list summary: no large documents; the children only to
/// count them, with the sum of their numeric scores computed by SQLite.
pub fn select_fields_summary() -> (r: &'static str)
    ensures
        r@ == "id, bank_id, type, version, difficulty, score, status, children_json, plain_text, created_at, updated_at,
     CASE WHEN json_valid(children_json) AND json_type(children_json) = 'array' THEN
       (SELECT TOTAL(CASE WHEN json_type(value, '$.score') IN ('integer', 'real') THEN json_extract(value, '$.score') END)
        FROM json_each(children_json)) END"@,
{
    "id, bank_id, type, version, difficulty, score, status, children_json, plain_text, created_at, updated_at,
     CASE WHEN json_valid(children_json) AND json_type(children_json) = 'array' THEN
       (SELECT TOTAL(CASE WHEN json_type(value, '$.score') IN ('integer', 'real') THEN json_extract(value, '$.score') END)
        FROM json_each(children_json)) END"
}

/// Stored JSON text as a value: `null` when absent or not JSON.
pub fn parse_json_opt(s: Option<String>) -> (r: Json)
    ensures
        r@ == match s {
            Some(t) => match json_parsed(t@) {
                Some(v) => v,
                None => JsonV::Null,
            },
            None => JsonV::Null,
        },
{
    match s {
        None => Json::Null,
        Some(t) => match Json::parse(t.as_str()) {
            Some(v) => v,
            None => Json::Null,
        },
    }
}

/// The JSON form of a question row read with `select_fields`.
pub fn row_to_question(row: &Vec<SqlValue>) -> (r: Json)
    requires
        row.len() == 15,
    ensures
        r@.is_object(),
        row@[0] matches SqlValue::Text(id) ==> r@.field("id"@) == Some(JsonV::Str(id@)),
{
    let es = vec![
        entry("id", col_json(row, 0)),
        entry("bank_id", col_json(row, 1)),
        entry("type", col_json(row, 2)),
        entry("version", col_json(row, 3)),
        entry("difficulty", col_json(row, 4)),
        entry("score", col_num(row, 5)),
        entry("status", col_json(row, 6)),
        entry("stem", parse_json_opt(col_text(row, 7))),
        entry("options", parse_json_opt(col_text(row, 8))),
        entry("answer", parse_json_opt(col_text(row, 9))),
        entry("analysis", parse_json_opt(col_text(row, 10))),
        entry("children", parse_json_opt(col_text(row, 11))),
        entry("plain_text", col_json(row, 12)),
        entry("created_at", col_json(row, 13)),
        entry("updated_at", col_json(row, 14)),
    ];
    proof {
        lemma_object_view(es);
    }
    let o = Json::Object(es);
    assert(o@->Object_0[0].0 == "id"@);
    o
}

/// The members of a question object, in the order of `select_fields`.
pub open spec fn question_fields() -> Seq<&'static str> {
    seq!["id", "bank_id", "type", "version", "difficulty", "score", "status", "stem", "options", "answer", "analysis", "children", "plain_text", "created_at", "updated_at"]
}

/// How the columns of `select_fields` become JSON: the score a number, the
/// five documents parsed, the rest as stored.
pub open spec fn question_field_kinds() -> Seq<Col> {
    seq![Col::Plain, Col::Plain, Col::Plain, Col::Plain, Col::Plain, Col::Num, Col::Plain, Col::Doc, Col::Doc, Col::Doc, Col::Doc, Col::Doc, Col::Plain, Col::Plain, Col::Plain]
}

/// The questions a query over `select_fields` returns: one query, each row
/// it returned as its question object.
pub fn query_questions(db: &mut Db, sql: &str, args: &Vec<SqlValue>) -> (r: Result<Vec<Json>, String>)
    ensures
        grew(old(db).log@, final(db).log@),
        final(db).log@.len() == old(db).log@.len() + 1,
        read_of(final(db).log@.last(), sql@, args_view(args@)),
        r matches Ok(v) ==> forall|i: int| 0 <= i < v.len() ==> (#[trigger] v@[i])@.is_object(),
        r matches Ok(v) ==> Json::Array(v)@ == objects_of(question_fields(), question_field_kinds(), rows_read(final(db).log@.last())),
{
    let names = vec!["id", "bank_id", "type", "version", "difficulty", "score", "status", "stem", "options", "answer", "analysis", "children", "plain_text", "created_at", "updated_at"];
    let kinds = vec![Col::Plain, Col::Plain, Col::Plain, Col::Plain, Col::Plain, Col::Num, Col::Plain, Col::Doc, Col::Doc, Col::Doc, Col::Doc, Col::Doc, Col::Plain, Col::Plain, Col::Plain];
    assert(names@ =~= question_fields() && kinds@ =~= question_field_kinds());
    let out = rows_as_objects(db, sql, args, &names, &kinds)?;
    proof {
        assert forall|i: int| 0 <= i < out.len() implies (#[trigger] out@[i])@.is_object() by {
            assert(keyed_as(out@[i]@, names@));
        }
    }
    Ok(out)
}

/// The list is the rows the query `c` returned, in order, each as its
/// question object; only the `fsrs` member may have been added.
pub open spec fn listed_questions(v: Seq<Json>, c: Call) -> bool {
    let rs = rows_read(c);
    &&& v.len() == rs.len()
    &&& forall|i: int, k: Seq<char>| 0 <= i < v.len() && k != "fsrs"@ ==>
        #[trigger] v[i]@.field(k) == row_object(question_fields(), question_field_kinds(), rs[i]).field(k)
}

/// Questions read by `query_questions` and then given their cards are the
/// rows of the query.
pub proof fn lemma_listed(a: Vec<Json>, b: Vec<Json>, c: Call)
    requires
        Json::Array(a)@ == objects_of(question_fields(), question_field_kinds(), rows_read(c)),
        b.len() == a.len(),
        forall|i: int, k: Seq<char>| 0 <= i < b.len() && k != "fsrs"@ ==> #[trigger] b@[i]@.field(k) == a@[i]@.field(k),
    ensures
        listed_questions(b@, c),
{
    lemma_array_view(a);
    assert forall|i: int, k: Seq<char>| 0 <= i < b.len() && k != "fsrs"@ implies
        #[trigger] b@[i]@.field(k) == row_object(question_fields(), question_field_kinds(), rows_read(c)[i]).field(k) by {
        assert(Json::Array(a)@->Array_0[i] == a@[i]@);
    }
}

/// The limit parameter of a list query: the given limit capped at 500, or
/// the default.
pub open spec fn limit_arg(limit: Option<u64>, default: int) -> SqlV {
    SqlV::Int(match limit {
        Some(l) => if l < 500 { l as i64 } else { 500 },
        None => default as i64,
    })
}

/// The number of children in stored children JSON (zero when it is not an array).
pub fn children_count(children_json: Option<String>) -> (r: u64)
    ensures
        r as int == match children_json {
            Some(t) => match json_parsed(t@) {
                Some(JsonV::Array(a)) => a.len() as int,
                _ => 0,
            },
            None => 0,
        },
{
    match children_json {
        Some(s) => match Json::parse(s.as_str()) {
            Some(j) => {
                proof {
                    reveal_with_fuel(<Json as View>::view, 1);
                }
                match j {
                    Json::Array(a) => {
                        proof {
                            lemma_array_view(a);
                        }
                        a.len() as u64
                    },
                    _ => 0,
                }
            },
            None => 0,
        },
        None => 0,
    }
}

/// The summary form of a row read with `select_fields_summary`.
pub fn row_to_question_summary(row: &Vec<SqlValue>) -> (r: Json)
    requires
        row.len() == 12,
    ensures
        r@.is_object(),
{
    let count = children_count(col_text(row, 7));
    Json::Object(
        vec![
            entry("id", col_json(row, 0)),
            entry("bank_id", col_json(row, 1)),
            entry("type", col_json(row, 2)),
            entry("version", col_json(row, 3)),
            entry("difficulty", col_json(row, 4)),
            entry("score", col_num(row, 5)),
            entry("children_count", Json::from_u64(count)),
            entry("children_score", col_num(row, 11)),
            entry("status", col_json(row, 6)),
            entry("plain_text", col_json(row, 8)),
            entry("created_at", col_json(row, 9)),
            entry("updated_at", col_json(row, 10)),
        ],
    )
}

pub fn query_question_summaries(db: &mut Db, sql: &str, args: &Vec<SqlValue>) -> (r: Result<Vec<Json>, String>)
    ensures
        grew(old(db).log@, final(db).log@),
        r matches Ok(v) ==> forall|i: int| 0 <= i < v.len() ==> (#[trigger] v@[i])@.is_object(),
        final(db).log@.len() == old(db).log@.len() + 1,
        read_of(final(db).log@.last(), sql@, args_view(args@)),
{
    let rows = db_query(db, sql, args, 12)?;
    let ghost after = db.log@;
    let mut out: Vec<Json> = Vec::new();
    let mut i: usize = 0;
    while i < rows.len()
        invariant
            grew(old(db).log@, db.log@),
            db.log@ == after,
            0 <= i <= rows.len(),
            forall|j: int| 0 <= j < rows.len() ==> (#[trigger] rows@[j]).len() == 12,
            out.len() == i,
            forall|j: int| 0 <= j < i ==> (#[trigger] out@[j])@.is_object(),
        decreases rows.len() - i,
    {
        out.push(row_to_question_summary(&rows[i]));
        i = i + 1;
    }
    Ok(out)
}

/// The FSRS card of a question as JSON, `null` when it has none.
pub fn fsrs_state_of(db: &mut Db, id: &str) -> (r: Result<Json, String>)
    ensures
        grew(old(db).log@, final(db).log@),
        r matches Ok(v) ==> v@ is Null || v@.is_object(),
{
    let rows = db_query(
        db,
        "SELECT due_at, stability, difficulty, reps, lapses, state, learning_steps, scheduled_days, last_result, last_reviewed_at
         FROM review_state WHERE question_id = ?1",
        &vec![text(id)],
        10,
    )?;
    if rows.len() == 0 {
        return Ok(Json::Null);
    }
    let row = &rows[0];
    Ok(
        Json::Object(
            vec![
                entry("due_at", col_json(row, 0)),
                entry("stability", col_num(row, 1)),
                entry("difficulty", col_num(row, 2)),
                entry("reps", col_json(row, 3)),
                entry("lapses", col_json(row, 4)),
                entry("state", col_json(row, 5)),
                entry("learning_steps", col_json(row, 6)),
                entry("scheduled_days", col_num(row, 7)),
                entry("last_result", col_json(row, 8)),
                entry("last_reviewed_at", col_json(row, 9)),
            ],
        ),
    )
}

/// A question with an id has an `fsrs` member, its card or `null`; one
/// without an id is left as it was.
pub open spec fn fsrs_attached(before: Json, after: Json) -> bool {
    if before@.field_text("id"@) is Some {
        match after@.field("fsrs"@) {
            Some(f) => f is Null || f.is_object(),
            None => false,
        }
    } else {
        after == before
    }
}

/// Gives every question with an id its `fsrs` member: its card, or `null`.
pub fn attach_fsrs_states(db: &mut Db, out: &mut Vec<Json>) -> (r: Result<(), String>)
    requires
        forall|i: int| 0 <= i < old(out).len() ==> (#[trigger] old(out)@[i])@.is_object(),
    ensures
        grew(old(db).log@, final(db).log@),
        final(out).len() == old(out).len(),
        forall|i: int| 0 <= i < final(out).len() ==> (#[trigger] final(out)@[i])@.is_object(),
        forall|i: int, k: Seq<char>|
            0 <= i < final(out).len() && k != "fsrs"@ ==> #[trigger] final(out)@[i]@.field(k) == old(out)@[i]@.field(k),
        r is Ok ==> forall|i: int| 0 <= i < final(out).len() ==> fsrs_attached(old(out)@[i], #[trigger] final(out)@[i]),
{
    let ghost orig = out@;
    let mut i: usize = 0;
    while i < out.len()
        invariant
            grew(old(db).log@, db.log@),
            0 <= i <= out.len(),
            out.len() == old(out).len(),
            orig == old(out)@,
            forall|j: int| 0 <= j < out.len() ==> (#[trigger] out@[j])@.is_object(),
            forall|j: int, k: Seq<char>| 0 <= j < out.len() && k != "fsrs"@ ==> #[trigger] out@[j]@.field(k) == orig[j]@.field(k),
            forall|j: int| i <= j < out.len() ==> (#[trigger] out@[j]) == orig[j],
            forall|j: int| 0 <= j < i ==> fsrs_attached(orig[j], #[trigger] out@[j]),
        decreases out.len() - i,
    {
        if let Some(id) = out[i].get_str("id") {
            let f = fsrs_state_of(db, id.as_str())?;
            let mut q = out[i].clone_json();
            q.set("fsrs", f);
            out.set(i, q);
        }
        i = i + 1;
    }
    Ok(())
}

/// One question by id.
pub const QUESTION_BY_ID: &'static str = "SELECT id, bank_id, type, version, difficulty, score, status, stem_json, options_json, answer_json, analysis_json, children_json, plain_text, created_at, updated_at FROM questions WHERE id = ?1";

/// A question with its FSRS card, if it exists.
pub fn fetch_question(db: &mut Db, id: &str) -> (r: Result<Option<Json>, String>)
    ensures
        grew(old(db).log@, final(db).log@),
        r matches Ok(Some(q)) ==> q@.is_object(),
        r is Ok ==> final(db).log@.len() > old(db).log@.len()
            && read_of(final(db).log@[old(db).log@.len() as int], QUESTION_BY_ID@, seq![SqlV::Text(id@)]),
        r matches Ok(o) ==> ({
            let rs = rows_read(final(db).log@[old(db).log@.len() as int]);
            match o {
                Some(q) => rs.len() > 0 && forall|k: Seq<char>| k != "fsrs"@ ==>
                    #[trigger] q@.field(k) == row_object(question_fields(), question_field_kinds(), rs[0]).field(k),
                None => rs.len() == 0,
            }
        }),
{
    let args = vec![text(id)];
    assert(args_view(args@) =~= seq![SqlV::Text(id@)]);
    let ghost n = db.log@.len() as int;
    let mut rows = query_questions(db, QUESTION_BY_ID, &args)?;
    let ghost c = db.log@.last();
    let ghost first = rows;
    attach_fsrs_states(db, &mut rows)?;
    proof {
        assert(db.log@[n] == c);
        lemma_listed(first, rows, c);
    }
    if rows.len() == 0 {
        return Ok(None);
    }
    proof {
        assert forall|k: Seq<char>| k != "fsrs"@ implies
            #[trigger] rows@[0]@.field(k) == row_object(question_fields(), question_field_kinds(), rows_read(c)[0]).field(k) by {
            assert(listed_questions(rows@, c));
        }
    }
    Ok(Some(rows.remove(0)))
}

/// The columns of a question row, from its JSON form.
pub struct QuestionFields {
    pub id: String,
    pub bank_id: Option<String>,
    pub typ: String,
    pub version: i64,
    pub difficulty: i64,
    /// The number text of the score, when it is a number.
    pub score: Option<String>,
    pub status: String,
    pub stem_json: String,
    pub options_json: Option<String>,
    pub answer_json: Option<String>,
    pub analysis_json: Option<String>,
    pub children_json: Option<String>,
    pub plain_text: String,
    pub created_at: String,
    pub updated_at: String,
    pub synced_at: String,
}

/// The text of a member, when it is a non-empty string.
pub open spec fn nonempty_text(q: JsonV, key: Seq<char>) -> Option<Seq<char>> {
    match q.field_text(key) {
        Some(s) => if s.len() > 0 { Some(s) } else { None },
        None => None,
    }
}

/// The stored JSON of an optional document member: none when absent or null.
pub open spec fn doc_json(q: JsonV, key: Seq<char>) -> Option<Seq<char>> {
    match q.field(key) {
        None => None,
        Some(JsonV::Null) => None,
        Some(v) => Some(json_text_of(v)),
    }
}

/// A question's JSON can be stored: an object with a non-empty `id` and
/// text `type`, `created_at` and `updated_at`.
pub open spec fn storable(q: JsonV) -> bool {
    &&& q.is_object()
    &&& nonempty_text(q, "id"@) is Some
    &&& q.field_text("type"@) is Some
    &&& q.field_text("created_at"@) is Some
    &&& q.field_text("updated_at"@) is Some
}

fn nonempty_str(q: &Json, key: &str) -> (r: Option<String>)
    ensures
        match r {
            Some(s) => nonempty_text(q@, key@) == Some(s@),
            None => nonempty_text(q@, key@) is None,
        },
{
    match q.get_str(key) {
        Some(s) => if s.as_str().unicode_len() > 0 {
            Some(s)
        } else {
            None
        },
        None => None,
    }
}

fn member_json(q: &Json, key: &str) -> (r: Option<String>)
    ensures
        match r {
            Some(s) => doc_json(q@, key@) == Some(s@),
            None => doc_json(q@, key@) is None,
        },
{
    match q.get(key) {
        None => None,
        Some(v) => if v.is_null() {
            None
        } else {
            Some(v.to_text())
        },
    }
}

/// The fields extracted from a storable question: its id, bank, type,
/// version and difficulty (2 when not an integer), score, status
/// (`published` when missing), documents as JSON text, plain text and times.
pub open spec fn fields_of(q: JsonV, f: QuestionFields) -> bool {
            &&& Some(f.id@) == nonempty_text(q, "id"@)
    &&& oview(f.bank_id) == q.field_text("bank_id"@)
    &&& Some(f.typ@) == q.field_text("type"@)
    &&& f.version as int == match q.field("version"@) { Some(v) => match v.int_val() { Some(x) => x, None => 2 }, None => 2 }
    &&& f.difficulty as int == match q.field("difficulty"@) { Some(v) => match v.int_val() { Some(x) => x, None => 2 }, None => 2 }
    &&& f.status@ == match nonempty_text(q, "status"@) { Some(s) => s, None => "published"@ }
    &&& f.stem_json@ == json_text_of(match q.field("stem"@) { Some(v) => v, None => JsonV::Null })
    &&& oview(f.options_json) == doc_json(q, "options"@)
    &&& oview(f.answer_json) == doc_json(q, "answer"@)
    &&& oview(f.analysis_json) == doc_json(q, "analysis"@)
    &&& oview(f.children_json) == doc_json(q, "children"@)
    &&& f.plain_text@ == match q.field_text("plain_text"@) { Some(s) => s, None => Seq::empty() }
    &&& Some(f.created_at@) == q.field_text("created_at"@)
    &&& Some(f.updated_at@) == q.field_text("updated_at"@)
    &&& (nonempty_text(q, "synced_at"@) matches Some(s) ==> f.synced_at@ == s)
    &&& (f.score matches Some(t) ==> q.field("score"@) == Some(JsonV::Num(t@)))
    &&& (q.field("score"@) matches Some(JsonV::Num(t)) ==> f.score matches Some(u) && u@ == t)
}

/// The columns of a question: defaults for version and difficulty (2) and
/// status (`published`), an empty plain text, the current time as sync stamp;
/// the score only when it is a number. Errors name the first missing member.
pub fn extract_fields(q: &Json) -> (r: Result<QuestionFields, String>)
    ensures
        r is Ok ==> storable(q@),
        !storable(q@) ==> r is Err,
        storable(q@) && r is Err ==> nonempty_text(q@, "synced_at"@) is None,
        r matches Ok(f) ==> fields_of(q@, f),
{
    if !q.is_object() {
        return Err("question data must be a JSON object".to_owned());
    }
    let id = match nonempty_str(q, "id") {
        Some(s) => s,
        None => {
            return Err("missing id".to_owned());
        },
    };
    let typ = match q.get_str("type") {
        Some(s) => s,
        None => {
            return Err("missing type".to_owned());
        },
    };
    let created_at = match q.get_str("created_at") {
        Some(s) => s,
        None => {
            return Err("missing created_at".to_owned());
        },
    };
    let updated_at = match q.get_str("updated_at") {
        Some(s) => s,
        None => {
            return Err("missing updated_at".to_owned());
        },
    };
    let synced_at = match nonempty_str(q, "synced_at") {
        Some(s) => s,
        None => now_iso()?,
    };
    let version = match q.get("version") {
        Some(v) => match v.as_i64() {
            Some(x) => x,
            None => 2,
        },
        None => 2,
    };
    let difficulty = match q.get("difficulty") {
        Some(v) => match v.as_i64() {
            Some(x) => x,
            None => 2,
        },
        None => 2,
    };
    let score = match q.get("score") {
        Some(Json::Num(t)) => Some(t.clone()),
        _ => None,
    };
    let status = match nonempty_str(q, "status") {
        Some(s) => s,
        None => "published".to_owned(),
    };
    let stem_json = match q.get("stem") {
        Some(v) => v.to_text(),
        None => Json::Null.to_text(),
    };
    let plain_text = match q.get_str("plain_text") {
        Some(s) => s,
        None => String::new(),
    };
    Ok(
        QuestionFields {
            id,
            bank_id: q.get_str("bank_id"),
            typ,
            version,
            difficulty,
            score,
            status,
            stem_json,
            options_json: member_json(q, "options"),
            answer_json: member_json(q, "answer"),
            analysis_json: member_json(q, "analysis"),
            children_json: member_json(q, "children"),
            plain_text,
            created_at,
            updated_at,
            synced_at,
        },
    )
}

/// The parameter is the text `t`.
pub open spec fn is_text(v: SqlValue, t: Seq<char>) -> bool {
    v matches SqlValue::Text(u) && u@ == t
}

/// The parameter is the text, or `NULL` where there is none.
pub open spec fn is_opt_text(v: SqlValue, t: Option<Seq<char>>) -> bool {
    match t {
        Some(x) => is_text(v, x),
        None => v is Null,
    }
}

/// The sixteen parameters of a question row, in column order: id, bank,
/// type, version, difficulty, score, status, the five documents, plain
/// text and the three times.
pub open spec fn row_params(p: Seq<SqlValue>, f: QuestionFields) -> bool {
    &&& p.len() == 16
    &&& is_text(p[0], f.id@)
    &&& is_opt_text(p[1], oview(f.bank_id))
    &&& is_text(p[2], f.typ@)
    &&& p[3] == SqlValue::Int(f.version)
    &&& p[4] == SqlValue::Int(f.difficulty)
    &&& is_opt_text(p[5], oview(f.score))
    &&& is_text(p[6], f.status@)
    &&& is_text(p[7], f.stem_json@)
    &&& is_opt_text(p[8], oview(f.options_json))
    &&& is_opt_text(p[9], oview(f.answer_json))
    &&& is_opt_text(p[10], oview(f.analysis_json))
    &&& is_opt_text(p[11], oview(f.children_json))
    &&& is_text(p[12], f.plain_text@)
    &&& is_text(p[13], f.created_at@)
    &&& is_text(p[14], f.updated_at@)
    &&& is_text(p[15], f.synced_at@)
}

/// The sixteen parameters of a question row, in column order.
pub fn field_params(f: &QuestionFields) -> (r: Vec<SqlValue>)
    ensures
        row_params(r@, *f),
{
    vec![
        SqlValue::Text(f.id.clone()),
        opt_text(&f.bank_id),
        SqlValue::Text(f.typ.clone()),
        SqlValue::Int(f.version),
        SqlValue::Int(f.difficulty),
        opt_text(&f.score),
        SqlValue::Text(f.status.clone()),
        SqlValue::Text(f.stem_json.clone()),
        opt_text(&f.options_json),
        opt_text(&f.answer_json),
        opt_text(&f.analysis_json),
        opt_text(&f.children_json),
        SqlValue::Text(f.plain_text.clone()),
        SqlValue::Text(f.created_at.clone()),
        SqlValue::Text(f.updated_at.clone()),
        SqlValue::Text(f.synced_at.clone()),
    ]
}

/// What the journal wrote stays written in its continuations.
pub proof fn lemma_question_written_grew(a: Seq<Call>, b: Seq<Call>, sql: Seq<char>, q: JsonV)
    requires
        grew(a, b),
        question_written(a, sql, q),
    ensures
        question_written(b, sql, q),
{
    let (f, p) = choose|f: QuestionFields, p: Seq<SqlValue>| #[trigger] fields_of(q, f) && #[trigger] row_params(p, f) && ran(a, sql, args_view(p));
    crate::db::lemma_ran_grew(a, b, sql, args_view(p));
}

/// The journal inserted a question row at some position from `from` on.
pub open spec fn inserted_since(log: Seq<Call>, from: int) -> bool {
    exists|k: int| from <= k < log.len() && run_of(#[trigger] log[k], QUESTION_INSERT@)
}

/// The import report `e` says its item was inserted.
pub open spec fn is_inserted(e: JsonV) -> bool {
    e is Object && e->Object_0.len() == 3 && e->Object_0[1] == ("status"@, JsonV::Str("inserted"@))
}

/// Each item reported inserted has an insert of its own in the journal,
/// after position `from`, in the order of the items.
pub open spec fn inserts_ok(a: Seq<JsonV>, log: Seq<Call>, from: int, ins: Seq<int>) -> bool {
    &&& ins.len() == a.len()
    &&& forall|k: int| 0 <= k < a.len() && is_inserted(#[trigger] a[k]) ==>
        from <= ins[k] < log.len() && run_of(log[ins[k]], QUESTION_INSERT@)
    &&& forall|j: int, k: int| 0 <= j < k < a.len() && is_inserted(#[trigger] a[j]) && is_inserted(#[trigger] a[k]) ==> ins[j] < ins[k]
}

/// Stores a new question row.
pub const QUESTION_INSERT: &'static str = "INSERT INTO questions (id, bank_id, type, version, difficulty, score, status, stem_json, options_json, answer_json, analysis_json, children_json, plain_text, created_at, updated_at, synced_at)
         VALUES (?1, ?2, ?3, ?4, ?5, ?6, ?7, ?8, ?9, ?10, ?11, ?12, ?13, ?14, ?15, ?16)";

/// Stores a question row, replacing a stored one but for its creation time.
pub const QUESTION_UPSERT: &'static str = "INSERT INTO questions (id, bank_id, type, version, difficulty, score, status, stem_json, options_json, answer_json, analysis_json, children_json, plain_text, created_at, updated_at, synced_at)
         VALUES (?1, ?2, ?3, ?4, ?5, ?6, ?7, ?8, ?9, ?10, ?11, ?12, ?13, ?14, ?15, ?16)
         ON CONFLICT(id) DO UPDATE SET
           bank_id = excluded.bank_id,
           type = excluded.type,
           version = excluded.version,
           difficulty = excluded.difficulty,
           score = excluded.score,
           status = excluded.status,
           stem_json = excluded.stem_json,
           options_json = excluded.options_json,
           answer_json = excluded.answer_json,
           analysis_json = excluded.analysis_json,
           children_json = excluded.children_json,
           plain_text = excluded.plain_text,
           created_at = questions.created_at,
           updated_at = excluded.updated_at,
           synced_at = excluded.synced_at";

/// The journal ran `sql` with the row parameters of the fields of `q`.
pub open spec fn question_written(log: Seq<Call>, sql: Seq<char>, q: JsonV) -> bool {
    exists|f: QuestionFields, p: Seq<SqlValue>| #[trigger] fields_of(q, f) && #[trigger] row_params(p, f) && ran(log, sql, args_view(p))
}

/// Inserts a question row; refused where `extract_fields` refuses.
pub fn insert_question(db: &mut Db, q: &Json) -> (r: Result<(), String>)
    ensures
        grew(old(db).log@, final(db).log@),
        !storable(q@) ==> r is Err,
        r is Ok ==> question_written(final(db).log@, QUESTION_INSERT@, q@),
        r is Ok ==> final(db).log@.len() == old(db).log@.len() + 1 && run_of(final(db).log@.last(), QUESTION_INSERT@),
{
    let f = extract_fields(q)?;
    let p = field_params(&f);
    let r = db_execute(db, QUESTION_INSERT, &p);
    proof {
        assert(is_run(db.log@[db.log@.len() - 1], QUESTION_INSERT@, args_view(p@)));
        assert(ran(db.log@, QUESTION_INSERT@, args_view(p@)));
    }
    match r {
        Ok(_) => Ok(()),
        Err(e) => Err(cat("insert question failed: ", &e)),
    }
}

/// Inserts or replaces a question row, keeping the stored creation time.
pub fn upsert_question(db: &mut Db, q: &Json) -> (r: Result<(), String>)
    ensures
        grew(old(db).log@, final(db).log@),
        !storable(q@) ==> r is Err,
        r is Ok ==> question_written(final(db).log@, QUESTION_UPSERT@, q@),
{
    let f = extract_fields(q)?;
    let p = field_params(&f);
    let r = db_execute(db, QUESTION_UPSERT, &p);
    proof {
        assert(is_run(db.log@[db.log@.len() - 1], QUESTION_UPSERT@, args_view(p@)));
        assert(ran(db.log@, QUESTION_UPSERT@, args_view(p@)));
    }
    match r {
        Ok(_) => Ok(()),
        Err(e) => Err(cat("upsert question failed: ", &e)),
    }
}

/// `limit` defaults to `default` and is capped at 500.
pub fn capped_limit(limit: Option<u64>, default: u64) -> (r: i64)
    requires
        default <= 500,
    ensures
        r == match limit {
            Some(l) => if l < 500 { l as int } else { 500 },
            None => default as int,
        },
{
    match limit {
        Some(l) => if l < 500 {
            l as i64
        } else {
            500
        },
        None => default as i64,
    }
}

/// An offset as SQLite takes it (an offset past `i64::MAX` is clamped there).
pub fn offset_param(offset: Option<u64>) -> (r: i64)
    ensures
        r == match offset {
            Some(o) => if o <= i64::MAX as u64 { o as int } else { i64::MAX as int },
            None => 0,
        },
{
    match offset {
        Some(o) => if o <= i64::MAX as u64 {
            o as i64
        } else {
            i64::MAX
        },
        None => 0,
    }
}

/// An optional filter: none when absent or empty.
pub fn nonempty(s: Option<String>) -> (r: Option<String>)
    ensures
        match s {
            Some(t) => if t@.len() > 0 { r == Some(t) } else { r is None },
            None => r is None,
        },
{
    match s {
        Some(t) => if t.as_str().unicode_len() > 0 {
            Some(t)
        } else {
            None
        },
        None => None,
    }
}

/// The filters of the question list: a text fragment, a type, a bank.
pub const LIST_WHERE: &'static str = "(?1 IS NULL OR plain_text LIKE '%'||?1||'%')
           AND (?2 IS NULL OR type = ?2)
           AND (?3 IS NULL OR bank_id = ?3)";

/// The order and page of the question list.
pub const LIST_TAIL: &'static str = " ORDER BY created_at DESC LIMIT ?4 OFFSET ?5";

/// The fragment parameter: the text unless it is blank, else `null`.
pub open spec fn fragment_arg(query: Option<String>) -> SqlV {
    match query {
        Some(q) => if blank(q@) { SqlV::Null } else { SqlV::Text(q@) },
        None => SqlV::Null,
    }
}

/// A page of questions, newest first, filtered by a text fragment, a type and
/// a bank, with the total count: `{total, items}`.
pub fn questions_list_impl(
    db: &mut Db,
    query: Option<String>,
    type_filter: Option<String>,
    bank_id: Option<String>,
    limit: Option<u64>,
    offset: Option<u64>,
    summary: bool,
) -> (r: Result<Json, String>)
    ensures
        grew(old(db).log@, final(db).log@),
        r matches Ok(v) ==> {
            &&& v@.field("total"@) matches Some(JsonV::Num(_))
            &&& v@.field("items"@) matches Some(JsonV::Array(a))
            &&& forall|i: int| 0 <= i < a.len() ==> (#[trigger] a[i]).is_object()
        },
        r matches Ok(v) ==> final(db).log@.len() == old(db).log@.len() + 2 && ({
            let n = old(db).log@.len() as int;
            let l = final(db).log@;
            let w = seq![fragment_arg(query), crate::practice::filter_arg(type_filter), crate::practice::filter_arg(bank_id)];
            &&& exists|t: i64| #[trigger] int_read(l[n], "SELECT COUNT(*) FROM questions WHERE "@ + LIST_WHERE@, w, t)
                && v@.field("total"@) == Some(JsonV::Num(int_numeral(t as int)))
            &&& !summary ==> read_of(l[n + 1], "SELECT "@ + SELECT_FIELDS@ + " FROM questions WHERE "@ + LIST_WHERE@ + LIST_TAIL@,
                    w + seq![limit_arg(limit, 50), SqlV::Int(crate::practice::offset_arg(offset))])
                && v@.field("items"@) == Some(objects_of(question_fields(), question_field_kinds(), rows_read(l[n + 1])))
        }),
{
    let ghost query0 = query;
    let ghost type0 = type_filter;
    let ghost bank0 = bank_id;
    let ghost limit0 = limit;
    let ghost offset0 = offset;
    let query = match query {
        Some(q) => if is_blank(q.as_str()) {
            None
        } else {
            Some(q)
        },
        None => None,
    };
    let type_filter = nonempty(type_filter);
    let bank_id = nonempty(bank_id);
    let limit = capped_limit(limit, 50);
    let offset = offset_param(offset);
    let where_sql = LIST_WHERE;
    let cargs = vec![opt_text(&query), opt_text(&type_filter), opt_text(&bank_id)];
    let ghost n = db.log@.len() as int;
    let total = query_int(db, cat("SELECT COUNT(*) FROM questions WHERE ", where_sql).as_str(), &cargs)?;
    let ghost l1 = db.log@;
    let fields = if summary {
        select_fields_summary()
    } else {
        select_fields()
    };
    let sql = cat3(
        cat3("SELECT ", fields, " FROM questions WHERE ").as_str(),
        where_sql,
        LIST_TAIL,
    );
    let args = vec![opt_text(&query), opt_text(&type_filter), opt_text(&bank_id), SqlValue::Int(limit), SqlValue::Int(offset)];
    let items = if summary {
        query_question_summaries(db, sql.as_str(), &args)?
    } else {
        query_questions(db, sql.as_str(), &args)?
    };
    proof {
        lemma_array_view(items);
        let w = seq![fragment_arg(query0), crate::practice::filter_arg(type0), crate::practice::filter_arg(bank0)];
        assert(args_view(cargs@) =~= w);
        assert(args_view(args@) =~= w + seq![limit_arg(limit0, 50), SqlV::Int(crate::practice::offset_arg(offset0))]);
        assert(db.log@[n] == l1[n]);
    }
    let es = vec![entry("total", Json::from_i64(total)), entry("items", Json::Array(items))];
    proof {
        reveal_strlit("total");
        reveal_strlit("items");
        assert(es@[0].0@[0] != es@[1].0@[0]);
        lemma_two_fields(es);
    }
    Ok(Json::Object(es))
}

/// One question by id; `Not Found` when there is none.
pub fn questions_get_impl(db: &mut Db, id: &str) -> (r: Result<Json, String>)
    ensures
        grew(old(db).log@, final(db).log@),
        r matches Ok(q) ==> q@.is_object(),
        r matches Ok(q) ==> final(db).log@.len() > old(db).log@.len() && ({
            let c = final(db).log@[old(db).log@.len() as int];
            &&& read_of(c, QUESTION_BY_ID@, seq![SqlV::Text(id@)])
            &&& rows_read(c).len() > 0
            &&& forall|k: Seq<char>| k != "fsrs"@ ==>
                #[trigger] q@.field(k) == row_object(question_fields(), question_field_kinds(), rows_read(c)[0]).field(k)
        }),
{
    match fetch_question(db, id)? {
        Some(q) => Ok(q),
        None => Err("Not Found".to_owned()),
    }
}

fn children_ok_exec(q: &Json) -> (r: bool)
    ensures
        r == children_ok(q@),
{
    match q.get("children") {
        Some(Json::Array(cs)) => {
            proof {
                lemma_array_view(*cs);
            }
            let mut i: usize = 0;
            while i < cs.len()
                invariant
                    0 <= i <= cs.len(),
                    q@.field("children"@) == Some(Json::Array(*cs)@),
                    forall|j: int| 0 <= j < cs.len() ==> #[trigger] Json::Array(*cs)@->Array_0[j] == cs@[j]@,
                    Json::Array(*cs)@->Array_0.len() == cs.len(),
                    forall|j: int| 0 <= j < i ==> (#[trigger] cs@[j])@ is Object || cs@[j]@ is Null,
                decreases cs.len() - i,
            {
                let ok = match &cs[i] {
                    Json::Object(_) => true,
                    Json::Null => true,
                    _ => false,
                };
                if !ok {
                    assert(!(Json::Array(*cs)@->Array_0[i as int] is Object || Json::Array(*cs)@->Array_0[i as int] is Null));
                    return false;
                }
                i = i + 1;
            }
            assert forall|j: int| 0 <= j < Json::Array(*cs)@->Array_0.len() implies (#[trigger] Json::Array(*cs)@->Array_0[j]) is Object
                || Json::Array(*cs)@->Array_0[j] is Null by {
                assert(Json::Array(*cs)@->Array_0[j] == cs@[j]@);
            }
            true
        },
        _ => true,
    }
}

/// The asset shas in the registry (none when it cannot be read).
pub fn registered_shas(db: &mut Db) -> (r: Vec<String>)
    ensures
        grew(old(db).log@, final(db).log@),
{
    match db_query(db, "SELECT sha FROM assets", &vec![], 1) {
        Ok(rows) => {
            let mut out: Vec<String> = Vec::new();
            let mut i: usize = 0;
            while i < rows.len()
                invariant
                    grew(old(db).log@, db.log@),
                    0 <= i <= rows.len(),
                    forall|j: int| 0 <= j < rows.len() ==> (#[trigger] rows@[j]).len() == 1,
                decreases rows.len() - i,
            {
                if let Some(s) = col_text(&rows[i], 0) {
                    out.push(s);
                }
                i = i + 1;
            }
            out
        },
        Err(_) => Vec::new(),
    }
}

/// Sets a member when it is missing or not a non-empty string.
fn default_text(q: &mut Json, key: &str, value: &str)
    requires
        old(q)@.is_object(),
    ensures
        final(q)@.is_object(),
        nonempty_text(old(q)@, key@) is Some ==> final(q)@ == old(q)@,
        nonempty_text(old(q)@, key@) is None ==> final(q)@.field(key@) == Some(JsonV::Str(value@)),
        forall|k: Seq<char>| k != key@ ==> final(q)@.field(k) == old(q)@.field(k),
{
    if nonempty_str(q, key).is_none() {
        q.set(key, Json::from_str(value));
    }
}

/// Sets `version` to 2 unless it is an integer.
fn default_version(q: &mut Json)
    requires
        old(q)@.is_object(),
    ensures
        final(q)@.is_object(),
        forall|k: Seq<char>| k != "version"@ ==> final(q)@.field(k) == old(q)@.field(k),
        final(q)@.field("version"@) == match old(q)@.field("version"@) {
            Some(v) => if v.int_val() is Some { Some(v) } else { Some(JsonV::Num(int_numeral(2))) },
            None => Some(JsonV::Num(int_numeral(2))),
        },
{
    let missing = match q.get("version") {
        Some(v) => v.as_i64().is_none(),
        None => true,
    };
    if missing {
        q.set("version", Json::from_i64(2));
    }
}

/// A member taken as it is where it is a non-empty text, else the text `v`.
pub open spec fn defaulted(q: JsonV, key: Seq<char>, v: Seq<char>) -> Option<JsonV> {
    if nonempty_text(q, key) is Some {
        q.field(key)
    } else {
        Some(JsonV::Str(v))
    }
}

/// The version a question keeps: an integer as it is, else 2.
pub open spec fn defaulted_version(q: JsonV) -> Option<JsonV> {
    match q.field("version"@) {
        Some(v) => if v.int_val() is Some {
            Some(v)
        } else {
            Some(JsonV::Num(int_numeral(2)))
        },
        None => Some(JsonV::Num(int_numeral(2))),
    }
}

/// The members that creation fills in.
pub open spec fn filled_key(k: Seq<char>) -> bool {
    k == "id"@ || k == "created_at"@ || k == "updated_at"@ || k == "status"@ || k == "version"@ || k == "bank_id"@
}

/// A new question with what it lacked filled in: the id given, both times
/// `now` where missing, version 2 where it is no integer, status
/// `published` where missing, the bank `bank` where it names none; every
/// other member as it was.
pub open spec fn new_question_fields(q1: JsonV, q: JsonV, id: Seq<char>, now: Seq<char>, bank: Option<Seq<char>>) -> bool {
    &&& q1.is_object()
    &&& q1.field("id"@) == Some(JsonV::Str(id))
    &&& q1.field("created_at"@) == defaulted(q, "created_at"@, now)
    &&& q1.field("updated_at"@) == defaulted(q, "updated_at"@, now)
    &&& q1.field("status"@) == defaulted(q, "status"@, "published"@)
    &&& q1.field("version"@) == defaulted_version(q)
    &&& q1.field("bank_id"@) == match (nonempty_text(q, "bank_id"@), bank) {
        (None, Some(b)) => Some(JsonV::Str(b)),
        _ => q.field("bank_id"@),
    }
    &&& forall|k: Seq<char>| !filled_key(k) ==> #[trigger] q1.field(k) == q.field(k)
}

/// Fills what a new question lacks; `bank` is the bank for a question that
/// names none.
pub fn fill_new_question(q: Json, id: &str, now: &str, bank: Option<String>) -> (r: Json)
    requires
        q@.is_object(),
    ensures
        new_question_fields(r@, q@, id@, now@, oview(bank)),
{
    let ghost q0 = q@;
    let mut q = q;
    q.set("id", Json::from_str(id));
    default_text(&mut q, "created_at", now);
    default_text(&mut q, "updated_at", now);
    default_version(&mut q);
    default_text(&mut q, "status", "published");
    if nonempty_str(&q, "bank_id").is_none() {
        if let Some(b) = bank {
            q.set("bank_id", Json::from_str(b.as_str()));
        }
    }
    proof {
        reveal_strlit("id");
        reveal_strlit("created_at");
        reveal_strlit("updated_at");
        reveal_strlit("status");
        reveal_strlit("version");
        reveal_strlit("bank_id");
        reveal_strlit("published");
        assert("id"@.len() == 2 && "created_at"@.len() == 10 && "updated_at"@.len() == 10 && "status"@.len() == 6);
        assert("version"@.len() == 7 && "bank_id"@.len() == 7);
        assert("created_at"@[0] != "updated_at"@[0] && "version"@[0] != "bank_id"@[0]);
    }
    q
}

/// A normalised question made ready to store: its plain text recomputed, its
/// children numbered under `id`, every other member as it was.
pub open spec fn ready_question(p: JsonV, n: JsonV, id: Seq<char>) -> bool {
    &&& p.is_object()
    &&& p.field("plain_text"@) == Some(JsonV::Str(aggregated_spec(n)))
    &&& forall|k: Seq<char>| k != "plain_text"@ && k != "children"@ ==> #[trigger] p.field(k) == n.field(k)
    &&& match n.field("children"@) {
        Some(JsonV::Array(cs)) => p.field("children"@) matches Some(JsonV::Array(ns)) && ns.len() == cs.len()
            && forall|i: int| 0 <= i < cs.len() ==> numbered_child(#[trigger] cs[i], ns[i], id, i),
        _ => p.field("children"@) == n.field("children"@),
    }
}

/// Makes a question ready to store: image references normalised against the
/// registered shas, children checked to be objects, the plain text recomputed
/// and the children numbered. The error says which of the two checks failed.
pub fn ready_to_store(q: &Json, id: &str, reg: &Vec<String>) -> (r: Result<Json, String>)
    ensures
        r is Ok <==> norm_ok(q@, reg@) && norm_val(q@, reg@).is_object() && children_ok(norm_val(q@, reg@)),
        r matches Ok(p) ==> ready_question(p@, norm_val(q@, reg@), id@),
        r matches Err(e) ==> e@ == "有配图尚未入库，请重新上传该图片"@ || e@ == "question children must be objects"@,
{
    let mut n = normalized_asset_srcs(q, reg)?;
    if !n.is_object() || !children_ok_exec(&n) {
        return Err("question children must be objects".to_owned());
    }
    let ghost nv = n@;
    let pt = aggregated_plain_text(&n);
    n.set("plain_text", Json::Str(pt));
    proof {
        reveal_strlit("plain_text");
        reveal_strlit("children");
        assert("plain_text"@.len() != "children"@.len());
    }
    ensure_child_ids(&mut n, id);
    Ok(n)
}

/// Fills what a new question lacks (id, times, version, status, bank), turns
/// display URLs of images into references, recomputes the plain text and
/// numbers the children, then inserts it. An id in use is refused.
pub fn questions_create_impl(db: &mut Db, q: Json) -> (r: Result<Json, String>)
    ensures
        grew(old(db).log@, final(db).log@),
        !q@.is_object() ==> (r matches Err(e) && e@ == "data must be a JSON object"@),
        r matches Ok(s) ==> s@.is_object(),
        r is Ok ==> inserted_since(final(db).log@, old(db).log@.len() as int),
{
    if !q.is_object() {
        return Err("data must be a JSON object".to_owned());
    }
    let id = match nonempty_str(&q, "id") {
        Some(s) => s,
        None => generate_id(),
    };
    let now = now_iso()?;
    let bank = if nonempty_str(&q, "bank_id").is_none() {
        Some(resolve_default_bank(db)?)
    } else {
        None
    };
    let q = fill_new_question(q, id.as_str(), now.as_str(), bank);
    let reg = registered_shas(db);
    let q = ready_to_store(&q, id.as_str(), &reg)?;
    if query_exists(db, "SELECT 1 FROM questions WHERE id = ?1", &vec![text(id.as_str())])? {
        return Err("ID 已存在".to_owned());
    }
    insert_question(db, &q)?;
    let ghost li = db.log@;
    let ghost ki = (li.len() - 1) as int;
    let fetched = fetch_question(db, id.as_str())?;
    proof {
        assert(db.log@[ki] == li[ki]);
        assert(li[ki] == li.last());
    }
    match fetched {
        Some(s) => Ok(s),
        None => Err("stored question missing".to_owned()),
    }
}

/// Updates a question: members the body lacks are kept from the stored one
/// (the plain text is always recomputed), the id is the one given, the
/// update time is now; then as for creation, and the row is upserted.
pub fn questions_update_impl(db: &mut Db, id: &str, data: Json) -> (r: Result<Json, String>)
    ensures
        grew(old(db).log@, final(db).log@),
        !data@.is_object() ==> (r matches Err(e) && e@ == "data must be a JSON object"@),
        r matches Ok(s) ==> s@.is_object(),
        r is Ok ==> exists|m: JsonV| #[trigger] question_written(final(db).log@, QUESTION_UPSERT@, m),
{
    if !data.is_object() {
        return Err("data must be a JSON object".to_owned());
    }
    let stored = fetch_question(db, id)?;
    let mut merged = data;
    if let Some(Json::Object(oes)) = stored {
        let mut i: usize = 0;
        while i < oes.len()
            invariant
                grew(old(db).log@, db.log@),
                0 <= i <= oes.len(),
                merged@.is_object(),
            decreases oes.len() - i,
        {
            let k = &oes[i].0;
            if !str_eq(k.as_str(), "plain_text") && merged.get(k.as_str()).is_none() {
                merged.set(k.as_str(), oes[i].1.clone_json());
            }
            i = i + 1;
        }
    }
    let now = now_iso()?;
    merged.set("id", Json::from_str(id));
    merged.set("updated_at", Json::from_str(now.as_str()));
    default_text(&mut merged, "created_at", now.as_str());
    default_version(&mut merged);
    default_text(&mut merged, "status", "published");
    let reg = registered_shas(db);
    let merged = ready_to_store(&merged, id, &reg)?;
    upsert_question(db, &merged)?;
    let ghost l1 = db.log@;
    let got = fetch_question(db, id)?;
    proof {
        lemma_question_written_grew(l1, db.log@, QUESTION_UPSERT@, merged@);
    }
    match got {
        Some(s) => Ok(s),
        None => Err("stored question missing".to_owned()),
    }
}

/// Deletes a question, logging its tombstone in the same transaction;
/// `Not Found` when there is none.
pub fn questions_remove_impl(db: &mut Db, id: &str, actor: Option<&str>) -> (r: Result<Json, String>)
    ensures
        grew(old(db).log@, final(db).log@),
        r matches Ok(v) ==> v@.field("id"@) == Some(JsonV::Str(id@)),
        r is Ok ==> removal_ran(final(db).log@, id@) && committed(final(db).log@),
        r is Err ==> no_writes(old(db).log@, final(db).log@) || rolled_back(final(db).log@),
{
    begin(db)?;
    let body = questions_remove_tx(db, id, actor);
    let ghost lb = db.log@;
    finish(db, body)?;
    proof {
        let l = db.log@;
        let (at, s) = choose|at: Seq<char>, s: Seq<char>| #[trigger] tomb_logged(lb, "question"@, id@, at, s);
        lemma_tomb_logged_grew(lb, l, "question"@, id@, at, s);
        crate::db::lemma_ran_grew(lb, l, QUESTION_DELETE@, seq![SqlV::Text(id@)]);
    }
    let es = vec![entry("id", Json::from_str(id))];
    proof {
        lemma_object_view(es);
    }
    let o = Json::Object(es);
    assert(o@->Object_0[0].0 == "id"@);
    Ok(o)
}

fn questions_remove_tx(db: &mut Db, id: &str, actor: Option<&str>) -> (r: Result<(), String>)
    ensures
        grew(old(db).log@, final(db).log@),
        r is Ok ==> removal_ran(final(db).log@, id@),
{
    let rows = db_query(db, "SELECT bank_id FROM questions WHERE id = ?1", &vec![text(id)], 1)?;
    if rows.len() == 0 {
        return Err("Not Found".to_owned());
    }
    let bank_id = col_text(&rows[0], 0);
    let now = now_iso()?;
    let b = match &bank_id {
        Some(s) => Some(s.as_str()),
        None => None,
    };
    write_tombstone(db, "question", id, b, now.as_str(), actor)?;
    let ghost lt = db.log@;
    let args = vec![text(id)];
    assert(args_view(args@) =~= seq![SqlV::Text(id@)]);
    db_execute(db, QUESTION_DELETE, &args)?;
    proof {
        let l = db.log@;
        let s = choose|s: Seq<char>| #[trigger] tomb_logged(lt, "question"@, id@, now@, s);
        lemma_tomb_logged_grew(lt, l, "question"@, id@, now@, s);
        assert(is_run(l[l.len() - 1], QUESTION_DELETE@, seq![SqlV::Text(id@)]));
    }
    Ok(())
}

/// Deletes a question row.
pub const QUESTION_DELETE: &'static str = "DELETE FROM questions WHERE id = ?1";

/// The journal logged the question's tombstone and deleted its row.
pub open spec fn removal_ran(log: Seq<Call>, id: Seq<char>) -> bool {
    &&& exists|at: Seq<char>, s: Seq<char>| #[trigger] tomb_logged(log, "question"@, id, at, s)
    &&& ran(log, QUESTION_DELETE@, seq![SqlV::Text(id)])
}

/// `{index, status, <key>: value}`: the report of one imported item.
pub open spec fn import_entry(idx: nat, status: Seq<char>, key: Seq<char>, value: JsonV) -> JsonV {
    JsonV::Object(seq![("index"@, JsonV::Num(decimal(idx))), ("status"@, JsonV::Str(status)), (key, value)])
}

/// The report of item `k`: an item that is not an object is an error; any
/// other is inserted (with its id), a duplicate or an error (with a message).
pub open spec fn import_report_ok(item: JsonV, k: int, q: JsonV) -> bool {
    if !q.is_object() {
        item == import_entry((k + 1) as nat, "error"@, "message"@, JsonV::Str("item must be an object"@))
    } else {
        exists|st: Seq<char>, key: Seq<char>, v: JsonV|
            item == #[trigger] import_entry((k + 1) as nat, st, key, v) && ((st == "inserted"@ && key == "id"@) || ((st
                == "duplicate"@ || st == "error"@) && key == "message"@))
    }
}

fn import_item(index: usize, status: &str, key: &str, value: Json) -> (r: Json)
    ensures
        r@ == import_entry(index as nat, status@, key@, value@),
{
    let ghost vv = value@;
    let es = vec![entry("index", Json::from_u64(index as u64)), entry("status", Json::from_str(status)), entry(key, value)];
    proof {
        lemma_object_view(es);
        assert(Json::Object(es)@->Object_0 =~= import_entry(index as nat, status@, key@, vv)->Object_0);
    }
    Json::Object(es)
}

/// An import item as the question it proposes: every member of the item
/// but its `id`, in the bank given.
pub open spec fn import_base(q: JsonV, item: JsonV, bank: Seq<char>) -> bool {
    &&& q.is_object()
    &&& q.field("bank_id"@) == Some(JsonV::Str(bank))
    &&& q.field("id"@) is None
    &&& forall|k: Seq<char>| k != "id"@ && k != "bank_id"@ ==> (#[trigger] q.field(k) is Some <==> item.field(k) is Some)
}

/// The question an import item proposes: its members without the `id`, and
/// the import's bank.
pub fn import_base_of(item: &Json, bank: &str) -> (r: Json)
    ensures
        import_base(r@, item@, bank@),
{
    let mut q = Json::new_object();
    let ghost iv = item@;
    if let Json::Object(es) = item {
        let ghost ev = iv->Object_0;
        proof {
            lemma_object_view(*es);
        }
        let mut j: usize = 0;
        while j < es.len()
            invariant
                0 <= j <= es.len(),
                ev.len() == es.len(),
                forall|m: int| 0 <= m < es.len() ==> #[trigger] ev[m] == (es@[m].0@, es@[m].1@),
                q@.is_object(),
                q@.field("id"@) is None,
                forall|k: Seq<char>| k != "id"@ ==> (#[trigger] q@.field(k) is Some <==> exists|m: int| 0 <= m < j && (#[trigger] ev[m]).0 == k),
            decreases es.len() - j,
        {
            let ghost before = q@;
            if !str_eq(es[j].0.as_str(), "id") {
                q.set(es[j].0.as_str(), es[j].1.clone_json());
            }
            proof {
                assert(ev[j as int] == (es@[j as int].0@, es@[j as int].1@));
                assert forall|k: Seq<char>| k != "id"@ implies (#[trigger] q@.field(k) is Some <==> exists|m: int| 0 <= m < j + 1 && (#[trigger] ev[m]).0 == k) by {
                    if k == ev[j as int].0 {
                        assert(q@.field(k) is Some);
                    } else {
                        assert(q@.field(k) == before.field(k));
                        if exists|m: int| 0 <= m < j + 1 && (#[trigger] ev[m]).0 == k {
                            let m = choose|m: int| 0 <= m < j + 1 && (#[trigger] ev[m]).0 == k;
                            assert(m < j);
                        }
                    }
                }
            }
            j = j + 1;
        }
        proof {
            assert forall|k: Seq<char>| k != "id"@ implies (#[trigger] q@.field(k) is Some <==> iv.field(k) is Some) by {
                lemma_lookup_some(ev, k, 0);
            }
        }
    }
    let ghost b4 = q@;
    q.set("bank_id", Json::from_str(bank));
    proof {
        reveal_strlit("id");
        reveal_strlit("bank_id");
        assert("id"@.len() != "bank_id"@.len());
        assert forall|k: Seq<char>| k != "id"@ && k != "bank_id"@ implies (#[trigger] q@.field(k) is Some <==> iv.field(k) is Some) by {
            assert(q@.field(k) == b4.field(k));
        }
    }
    q
}

/// The bank an import goes to, given the bank named (`None` where no name
/// was given) and whether the store holds it: the named bank where it
/// exists, an error naming it where it does not, and `None` (the default
/// bank) where no bank was named.
pub fn import_bank(given: Option<String>, found: bool) -> (r: Result<Option<String>, String>)
    ensures
        match given {
            Some(b) => if found {
                r matches Ok(Some(x)) && x@ == b@
            } else {
                r matches Err(e) && e@ == "bank not found: "@ + b@
            },
            None => r matches Ok(None),
        },
{
    match given {
        Some(b) => {
            if found {
                Ok(Some(b))
            } else {
                Err(cat("bank not found: ", b.as_str()))
            }
        },
        None => Ok(None),
    }
}

/// What becomes of an importable item.
#[derive(Debug, PartialEq, Eq, Structural)]
pub enum ImportStep {
    /// An earlier item of the batch has the same plain text.
    InBatch,
    /// The bank already holds a question with that plain text.
    InBank,
    /// The item is created.
    Create,
}

/// The decision for an item whose plain text is `pt`, given the plain texts
/// of the batch so far and whether the bank holds one equal to it: a
/// duplicate of the batch first, then of the bank, else a new question.
pub fn import_step(pt: &str, seen: &Vec<String>, in_bank: bool) -> (r: ImportStep)
    ensures
        r == (if listed(seen@, pt@) {
            ImportStep::InBatch
        } else if in_bank {
            ImportStep::InBank
        } else {
            ImportStep::Create
        }),
{
    if contains_str(seen, pt) {
        ImportStep::InBatch
    } else if in_bank {
        ImportStep::InBank
    } else {
        ImportStep::Create
    }
}

/// The report of an item whose plain text repeats an earlier item's.
pub open spec fn batch_dup_entry(k: int) -> JsonV {
    import_entry((k + 1) as nat, "duplicate"@, "message"@, JsonV::Str("与本批次内重复"@))
}

/// An earlier item of the batch had the plain text `p`.
pub open spec fn earlier_text(pts: Seq<Option<Seq<char>>>, k: int, p: Seq<char>) -> bool {
    exists|j: int| 0 <= j < k && pts[j] == Some(p)
}

/// An error report of item `k`.
pub open spec fn is_error_entry(e: JsonV, k: int) -> bool {
    exists|v: JsonV| e == #[trigger] import_entry((k + 1) as nat, "error"@, "message"@, v)
}

/// Report `k` against the plain texts `pts` of the items (`None` where an
/// item never got one: not an object, or its images are not registered): a
/// batch duplicate exactly where the text repeats an earlier item's, an
/// error where the item got no text.
pub open spec fn import_text_ok(e: JsonV, k: int, item: JsonV, pts: Seq<Option<Seq<char>>>, bank: Seq<char>) -> bool {
    &&& (!item.is_object() ==> pts[k] is None)
    &&& (pts[k] matches Some(p) ==> text_of_item(p, item, bank))
    &&& (e == batch_dup_entry(k) <==> (pts[k] matches Some(p) && earlier_text(pts, k, p)))
    &&& (pts[k] is None ==> is_error_entry(e, k))
}

/// The plain text of an item: that of the question it proposes in `bank`,
/// its images normalised against the registered shas of the moment.
pub open spec fn text_of_item(p: Seq<char>, item: JsonV, bank: Seq<char>) -> bool {
    exists|q: JsonV, reg: Seq<String>|
        import_base(q, item, bank) && norm_ok(q, reg) && p == #[trigger] aggregated_spec(norm_val(q, reg))
}

/// What an import into `bank` reports: one entry per item, each as
/// `import_report_ok` and `import_text_ok` say over the items' plain texts.
pub open spec fn import_outcome(a: Seq<JsonV>, items: Seq<Json>, pts: Seq<Option<Seq<char>>>, bank: Seq<char>) -> bool {
    &&& a.len() == items.len()
    &&& pts.len() == items.len()
    &&& forall|k: int| 0 <= k < a.len() ==> import_report_ok(#[trigger] a[k], k, items[k]@)
    &&& forall|k: int| 0 <= k < a.len() ==> import_text_ok(#[trigger] a[k], k, items[k]@, pts, bank)
}

proof fn lemma_entry_ne(idx: nat, st1: Seq<char>, k1: Seq<char>, v1: JsonV, st2: Seq<char>, k2: Seq<char>, v2: JsonV)
    requires
        st1 != st2 || v1 != v2,
    ensures
        import_entry(idx, st1, k1, v1) != import_entry(idx, st2, k2, v2),
{
    if import_entry(idx, st1, k1, v1) == import_entry(idx, st2, k2, v2) {
        let a = import_entry(idx, st1, k1, v1)->Object_0;
        let b = import_entry(idx, st2, k2, v2)->Object_0;
        assert(a[1] == b[1]);
        assert(a[2] == b[2]);
    }
}

proof fn lemma_text_ok_push(e: JsonV, k: int, item: JsonV, before: Seq<Option<Seq<char>>>, st: Option<Seq<char>>, bank: Seq<char>)
    requires
        0 <= k < before.len(),
        import_text_ok(e, k, item, before, bank),
    ensures
        import_text_ok(e, k, item, before.push(st), bank),
{
    let pts = before.push(st);
    assert(pts[k] == before[k]);
    assert forall|p: Seq<char>| earlier_text(before, k, p) == earlier_text(pts, k, p) by {
        if earlier_text(before, k, p) {
            let j = choose|j: int| 0 <= j < k && before[j] == Some(p);
            assert(pts[j] == Some(p));
        }
        if earlier_text(pts, k, p) {
            let j = choose|j: int| 0 <= j < k && pts[j] == Some(p);
            assert(before[j] == Some(p));
        }
    }
}

proof fn lemma_text_ok_new(
    e: JsonV,
    item: JsonV,
    before: Seq<Option<Seq<char>>>,
    st: Option<Seq<char>>,
    seen0: Seq<String>,
    seen1: Seq<String>,
    bank: Seq<char>,
)
    requires
        forall|p: Seq<char>| listed(seen0, p) <==> #[trigger] earlier_text(before, before.len() as int, p),
        !item.is_object() ==> st is None,
        st matches Some(p) ==> text_of_item(p, item, bank),
        st is None ==> is_error_entry(e, before.len() as int) && e != batch_dup_entry(before.len() as int) && seen1 == seen0,
        st matches Some(p) && listed(seen0, p) ==> e == batch_dup_entry(before.len() as int) && seen1 == seen0,
        match st {
            Some(p) => !listed(seen0, p) ==> e != batch_dup_entry(before.len() as int)
                && forall|x: Seq<char>| #[trigger] listed(seen1, x) <==> (listed(seen0, x) || x == p),
            None => true,
        },
    ensures
        import_text_ok(e, before.len() as int, item, before.push(st), bank),
        forall|p: Seq<char>| listed(seen1, p) <==> #[trigger] earlier_text(before.push(st), before.len() + 1int, p),
{
    let k = before.len() as int;
    let pts = before.push(st);
    assert(pts[k] == st);
    assert forall|p: Seq<char>| earlier_text(before, k, p) == earlier_text(pts, k, p) by {
        if earlier_text(before, k, p) {
            let j = choose|j: int| 0 <= j < k && before[j] == Some(p);
            assert(pts[j] == Some(p));
        }
        if earlier_text(pts, k, p) {
            let j = choose|j: int| 0 <= j < k && pts[j] == Some(p);
            assert(before[j] == Some(p));
        }
    }
    assert forall|p: Seq<char>| earlier_text(pts, k + 1, p) == (earlier_text(pts, k, p) || st == Some(p)) by {
        if earlier_text(pts, k + 1, p) {
            let j = choose|j: int| 0 <= j < k + 1 && pts[j] == Some(p);
            if j < k {
                assert(earlier_text(pts, k, p));
            }
        }
        if earlier_text(pts, k, p) {
            let j = choose|j: int| 0 <= j < k && pts[j] == Some(p);
            assert(pts[j] == Some(p));
        }
        if st == Some(p) {
            assert(pts[k] == Some(p));
        }
    }
    assert forall|p: Seq<char>| listed(seen1, p) <==> #[trigger] earlier_text(pts, k + 1, p) by {
        assert(earlier_text(pts, k, p) == earlier_text(before, k, p));
        assert(listed(seen0, p) == earlier_text(before, k, p));
        if let Some(x) = st {
            if !listed(seen0, x) {
                assert(listed(seen1, p) <==> (listed(seen0, p) || p == x));
            }
        }
    }
}

/// Imports questions into one bank (the given one, which must exist, else
/// the default), each on its own: an item that is not an object or fails is
/// an error, one whose plain text repeats an earlier item or a question of the
/// bank is a duplicate, the others are created under new ids.
/// `{batch_id, items: [{index, status, id | message}]}`, one entry per item.
pub fn import_questions_impl(db: &mut Db, items: Vec<Json>, bank_id: Option<String>) -> (r: Result<Json, String>)
    ensures
        grew(old(db).log@, final(db).log@),
        r matches Ok(v) ==> v@.field("items"@) matches Some(JsonV::Array(a))
            && exists|pts: Seq<Option<Seq<char>>>, bank: Seq<char>| #[trigger] import_outcome(a, items@, pts, bank),
        r matches Ok(v) ==> v@.field("items"@) matches Some(JsonV::Array(a))
            && exists|ins: Seq<int>| #[trigger] inserts_ok(a, final(db).log@, old(db).log@.len() as int, ins),
{
    let given = nonempty(bank_id);
    let found = match &given {
        Some(b) => query_exists(db, "SELECT 1 FROM banks WHERE id = ?1", &vec![text(b.as_str())])?,
        None => false,
    };
    let bank = match import_bank(given, found)? {
        Some(b) => b,
        None => resolve_default_bank(db)?,
    };
    let batch_id = generate_id();
    let mut seen: Vec<String> = Vec::new();
    let mut out: Vec<Json> = Vec::new();
    let ghost mut pts: Seq<Option<Seq<char>>> = Seq::empty();
    let ghost mut ins: Seq<int> = Seq::empty();
    let ghost from = old(db).log@.len() as int;
    proof {
        reveal_strlit("item must be an object");
        reveal_strlit("error");
        reveal_strlit("duplicate");
        reveal_strlit("inserted");
        reveal_strlit("与本批次内重复");
        reveal_strlit("题库中已存在相同题目");
    }
    let mut i: usize = 0;
    while i < items.len()
        invariant
            grew(old(db).log@, db.log@),
            0 <= i <= items.len(),
            out.len() == i,
            pts.len() == i,
            "error"@.len() == 5 && "duplicate"@.len() == 9 && "inserted"@.len() == 8,
            "与本批次内重复"@.len() == 7 && "题库中已存在相同题目"@.len() == 10,
            forall|k: int| 0 <= k < i ==> import_report_ok(#[trigger] out@[k]@, k, items@[k]@),
            forall|k: int| 0 <= k < i ==> import_text_ok(#[trigger] out@[k]@, k, items@[k]@, pts, bank@),
            forall|p: Seq<char>| listed(seen@, p) <==> #[trigger] earlier_text(pts, i as int, p),
            from == old(db).log@.len(),
            inserts_ok(views(out@), db.log@, from, ins),
        decreases items.len() - i,
    {
        let index = i + 1;
        let ghost k = i as int;
        let ghost before = pts;
        let ghost seen0 = seen@;
        let ghost outs = out@;
        let ghost ls = db.log@;
        let ghost mut ki: int = -1;
        let q0 = &items[i];
        let ghost mut st: Option<Seq<char>> = None;
        let e = if !q0.is_object() {
            let e = import_item(index, "error", "message", Json::from_str("item must be an object"));
            proof {
                lemma_entry_ne(index as nat, "error"@, "message"@, JsonV::Str("item must be an object"@), "duplicate"@, "message"@, JsonV::Str("与本批次内重复"@));
                assert(is_error_entry(e@, k));
            }
            e
        } else {
            let q = import_base_of(q0, bank.as_str());
            let reg = registered_shas(db);
            match normalized_asset_srcs(&q, &reg) {
                Err(msg) => {
                    let e = import_item(index, "error", "message", Json::Str(msg));
                    proof {
                        lemma_entry_ne(index as nat, "error"@, "message"@, e@->Object_0[2].1, "duplicate"@, "message"@, JsonV::Str("与本批次内重复"@));
                        assert(is_error_entry(e@, k));
                    }
                    e
                },
                Ok(nq) => {
                    let pt = aggregated_plain_text(&nq);
                    proof {
                        st = Some(pt@);
                        assert(text_of_item(pt@, items@[k]@, bank@));
                    }
                    let in_bank = if contains_str(&seen, pt.as_str()) {
                        false
                    } else {
                        query_exists(
                            db,
                            "SELECT 1 FROM questions WHERE bank_id = ?1 AND plain_text = ?2",
                            &vec![text(bank.as_str()), SqlValue::Text(pt.clone())],
                        )?
                    };
                    let step = import_step(pt.as_str(), &seen, in_bank);
                    if step == ImportStep::InBatch {
                        import_item(index, "duplicate", "message", Json::from_str("与本批次内重复"))
                    } else {
                        let ghost ptv = pt@;
                        seen.push(pt);
                        proof {
                            assert forall|x: Seq<char>| #[trigger] listed(seen@, x) <==> (listed(seen0, x) || x == ptv) by {
                                if listed(seen@, x) {
                                    let m = choose|m: int| 0 <= m < seen@.len() && seen@[m]@ == x;
                                    if m < seen0.len() {
                                        assert(seen0[m] == seen@[m]);
                                    }
                                }
                                if listed(seen0, x) {
                                    let m = choose|m: int| 0 <= m < seen0.len() && seen0[m]@ == x;
                                    assert(seen@[m] == seen0[m]);
                                }
                                if x == ptv {
                                    assert(seen@[seen0.len() as int]@ == x);
                                }
                            }
                        }
                        if step == ImportStep::InBank {
                            let e = import_item(index, "duplicate", "message", Json::from_str("题库中已存在相同题目"));
                            proof {
                                lemma_entry_ne(index as nat, "duplicate"@, "message"@, JsonV::Str("题库中已存在相同题目"@), "duplicate"@, "message"@, JsonV::Str("与本批次内重复"@));
                            }
                            e
                        } else {
                            let created = questions_create_impl(db, nq);
                            proof {
                                if created is Ok {
                                    ki = choose|kk: int| ls.len() <= kk < db.log@.len() && run_of(#[trigger] db.log@[kk], QUESTION_INSERT@);
                                }
                            }
                            match created {
                                Ok(stored) => {
                                    let id = match stored.get("id") {
                                        Some(v) => v.clone_json(),
                                        None => Json::Null,
                                    };
                                    let e = import_item(index, "inserted", "id", id);
                                    proof {
                                        lemma_entry_ne(index as nat, "inserted"@, "id"@, e@->Object_0[2].1, "duplicate"@, "message"@, JsonV::Str("与本批次内重复"@));
                                    }
                                    e
                                },
                                Err(msg) => {
                                    let e = import_item(index, "error", "message", Json::Str(msg));
                                    proof {
                                        lemma_entry_ne(index as nat, "error"@, "message"@, e@->Object_0[2].1, "duplicate"@, "message"@, JsonV::Str("与本批次内重复"@));
                                    }
                                    e
                                },
                            }
                        }
                    }
                },
            }
        };
        proof {
            lemma_text_ok_new(e@, items@[k]@, before, st, seen0, seen@, bank@);
            pts = before.push(st);
        }
        let ghost le = db.log@;
        proof {
            reveal_strlit("status");
            assert(e@->Object_0[1].1 == JsonV::Str("inserted"@) ==> ls.len() <= ki < le.len() && run_of(le[ki], QUESTION_INSERT@));
        }
        out.push(e);
        proof {
            let vo = views(out@);
            let vb = views(outs);
            let ins2 = ins.push(ki);
            assert forall|k2: int| 0 <= k2 < i + 1 && is_inserted(#[trigger] vo[k2]) implies
                from <= ins2[k2] < le.len() && run_of(le[ins2[k2]], QUESTION_INSERT@) by {
                if k2 < k {
                    assert(vo[k2] == vb[k2]);
                    assert(le[ins[k2]] == ls[ins[k2]]);
                } else {
                    assert(vo[k2] == e@);
                }
            }
            assert forall|j2: int, k2: int| 0 <= j2 < k2 < i + 1 && is_inserted(#[trigger] vo[j2]) && is_inserted(#[trigger] vo[k2]) implies ins2[j2] < ins2[k2] by {
                assert(vo[j2] == vb[j2]);
                if k2 < k {
                    assert(vo[k2] == vb[k2]);
                } else {
                    assert(vo[k2] == e@);
                }
            }
            ins = ins2;
            assert(inserts_ok(vo, le, from, ins));
        }
        proof {
            assert forall|k2: int| 0 <= k2 < i + 1 implies import_text_ok(#[trigger] out@[k2]@, k2, items@[k2]@, pts, bank@) by {
                if k2 < k {
                    assert(out@[k2] == outs[k2]);
                    lemma_text_ok_push(out@[k2]@, k2, items@[k2]@, before, st, bank@);
                }
            }
        }
        i = i + 1;
    }
    proof {
        lemma_array_view(out);
        let a = Json::Array(out)@->Array_0;
        assert forall|k: int| 0 <= k < a.len() implies import_report_ok(#[trigger] a[k], k, items@[k]@)
            && import_text_ok(a[k], k, items@[k]@, pts, bank@) by {
            assert(a[k] == out@[k]@);
        }
        assert(import_outcome(a, items@, pts, bank@));
        assert(a =~= views(out@));
    }
    let es = vec![entry("batch_id", Json::Str(batch_id)), entry("items", Json::Array(out))];
    proof {
        reveal_strlit("batch_id");
        reveal_strlit("items");
        assert(es@[0].0@.len() != es@[1].0@.len());
        lemma_two_fields(es);
    }
    Ok(Json::Object(es))
}

} // verus!
