//! Sync: the tombstone log, the export of changes since a cursor, and the
//! two-phase apply of a bundle (decisions first, then one transaction).
use vstd::prelude::*;
use crate::db::{Db, grew, SqlV, Call, first_text, ran, is_run, ran_each, args_view, committed, read_of, no_writes, rolled_back, lemma_no_writes_trans, writes_for, names_listed, lemma_writes_for_trans, lemma_no_writes_for, lemma_ran_grew, lemma_ran_each_grew};
use crate::db::{SqlValue, Col, col_view, rows_as_objects, rows_read, objects_of, db_execute, db_query, query_opt_text, query_exists, begin, finish, col_json, col_text, text, opt_text};
use crate::json::{Json, JsonV, entry, lookup, int_numeral, json_parsed, lemma_object_view, lemma_array_view};
use crate::clock::{clamped_somewhen, now_iso, clock_now, parse_rfc3339, fmt_iso, rfc3339_instant, iso_of, later, clamp_business_time};
use crate::ids::generate_id;
use crate::text::{cat, str_eq, is_blank, blank};
use crate::merge::{SyncRole, Tomb, lww_take, vget, vmap};
use crate::plan::{MergeInput, MergePlan, QRow, Kind, plan_merge, oview, plan_ok};
use crate::assets::{contains_str, listed};
use crate::questions::{extract_fields, field_params, QuestionFields, row_params, nonempty_text};
use crate::practice::{FsrsCard, validate_fsrs_card, record_content_eq, stored_record, is_mode_exec, is_grade_exec, correct_of, is_mode, is_grade};

verus! {

/// Logs a tombstone, or updates the logged one of the same row.
pub const TOMB_WRITE: &'static str = "INSERT INTO delete_log (id, entity_type, entity_id, bank_id, deleted_at, actor, synced_at)
         VALUES (?1, ?2, ?3, ?4, ?5, ?6, ?7)
         ON CONFLICT(entity_type, entity_id) DO UPDATE SET
           bank_id = excluded.bank_id,
           deleted_at = excluded.deleted_at,
           actor = excluded.actor,
           synced_at = excluded.synced_at";

/// The call logged the tombstone of (`et`, `id`) deleted at `at`, synced at `synced`.
pub open spec fn tomb_call(c: Call, et: Seq<char>, id: Seq<char>, at: Seq<char>, synced: Seq<char>) -> bool {
    c matches Call::Run { sql: s, args: a, .. } && s == TOMB_WRITE@ && a.len() == 7 && a[1] == SqlV::Text(et)
        && a[2] == SqlV::Text(id) && a[4] == SqlV::Text(at) && a[6] == SqlV::Text(synced)
}

/// The journal logged that tombstone.
pub open spec fn tomb_logged(log: Seq<Call>, et: Seq<char>, id: Seq<char>, at: Seq<char>, synced: Seq<char>) -> bool {
    exists|k: int| 0 <= k < log.len() && tomb_call(#[trigger] log[k], et, id, at, synced)
}

/// A logged tombstone stays logged in the journal's continuations.
pub proof fn lemma_tomb_logged_grew(a: Seq<Call>, b: Seq<Call>, et: Seq<char>, id: Seq<char>, at: Seq<char>, synced: Seq<char>)
    requires
        grew(a, b),
        tomb_logged(a, et, id, at, synced),
    ensures
        tomb_logged(b, et, id, at, synced),
{
    let k = choose|k: int| 0 <= k < a.len() && tomb_call(#[trigger] a[k], et, id, at, synced);
    assert(b[k] == a[k]);
}

/// Writes a tombstone with an explicit sync stamp; a later one for the same
/// entity replaces it.
pub fn write_tombstone_tx(
    db: &mut Db,
    entity_type: &str,
    entity_id: &str,
    bank_id: Option<&str>,
    deleted_at: &str,
    actor: Option<&str>,
    synced_at: &str,
) -> (r: Result<(), String>)
    ensures
        grew(old(db).log@, final(db).log@),
        r is Ok ==> tomb_logged(final(db).log@, entity_type@, entity_id@, deleted_at@, synced_at@),
{
    let b = match bank_id {
        Some(s) => text(s),
        None => SqlValue::Null,
    };
    let a = match actor {
        Some(s) => text(s),
        None => SqlValue::Null,
    };
    let args = vec![SqlValue::Text(generate_id()), text(entity_type), text(entity_id), b, text(deleted_at), a, text(synced_at)];
    proof {
        let v = args_view(args@);
        assert(v.len() == 7 && v[1] == SqlV::Text(entity_type@) && v[2] == SqlV::Text(entity_id@));
        assert(v[4] == SqlV::Text(deleted_at@) && v[6] == SqlV::Text(synced_at@));
    }
    let r = db_execute(db, TOMB_WRITE, &args);
    proof {
        let l = db.log@;
        assert(tomb_call(l[l.len() - 1], entity_type@, entity_id@, deleted_at@, synced_at@));
    }
    match r {
        Ok(_) => Ok(()),
        Err(e) => Err(cat("write tombstone failed: ", &e)),
    }
}

/// Writes a tombstone stamped with the current time.
pub fn write_tombstone(
    db: &mut Db,
    entity_type: &str,
    entity_id: &str,
    bank_id: Option<&str>,
    deleted_at: &str,
    actor: Option<&str>,
) -> (r: Result<(), String>)
    ensures
        grew(old(db).log@, final(db).log@),
        r is Ok ==> exists|s: Seq<char>| #[trigger] tomb_logged(final(db).log@, entity_type@, entity_id@, deleted_at@, s),
{
    let now = now_iso()?;
    write_tombstone_tx(db, entity_type, entity_id, bank_id, deleted_at, actor, now.as_str())
}

/// The question exists and has no tombstone.
pub fn question_alive(db: &mut Db, qid: &str) -> (r: Result<bool, String>)
    ensures
        grew(old(db).log@, final(db).log@),
        no_writes(old(db).log@, final(db).log@),
{
    query_exists(
        db,
        "SELECT 1 FROM questions WHERE id = ?1
         AND NOT EXISTS (SELECT 1 FROM delete_log WHERE entity_type = 'question' AND entity_id = ?1)",
        &vec![text(qid)],
    )
}

/// The logged deletion time of an entity.
pub const TOMB_SEEN: &'static str = "SELECT deleted_at FROM delete_log WHERE entity_type = ?1 AND entity_id = ?2";

/// The call read `at` as the logged deletion time of the entity.
pub open spec fn seen_call(c: Call, et: Seq<char>, id: Seq<char>, at: Seq<char>) -> bool {
    &&& c matches Call::Read { sql: s, args: a, rows: Some(rs) }
    &&& s == TOMB_SEEN@ && a == seq![SqlV::Text(et), SqlV::Text(id)] && first_text(rs) == Some(at)
}

/// The same tombstone (same entity, same `deleted_at`) is already logged.
pub fn tomb_already_logged(db: &mut Db, entity_type: &str, entity_id: &str, deleted_at: &str) -> (r: Result<bool, String>)
    ensures
        grew(old(db).log@, final(db).log@),
        final(db).log@.len() == old(db).log@.len() + 1,
        r matches Ok(true) ==> seen_call(final(db).log@.last(), entity_type@, entity_id@, deleted_at@),
{
    let args = vec![text(entity_type), text(entity_id)];
    assert(args_view(args@) =~= seq![SqlV::Text(entity_type@), SqlV::Text(entity_id@)]);
    let cur = query_opt_text(db, TOMB_SEEN, &args)?;
    Ok(match cur {
        Some(c) => str_eq(c.as_str(), deleted_at),
        None => false,
    })
}

/// A value of the `db_meta` table.
pub fn db_meta_value(db: &mut Db, key: &str) -> (r: Result<Option<String>, String>)
    ensures
        grew(old(db).log@, final(db).log@),
        no_writes(old(db).log@, final(db).log@),
{
    query_opt_text(db, "SELECT value FROM db_meta WHERE key = ?1", &vec![text(key)])
}

/// Ninety days, in seconds: how long tombstones are kept.
pub open spec fn horizon_secs() -> int {
    7_776_000
}

/// The tombstone horizon at `now` for a store created at `created`: none for
/// a store younger than ninety days (nothing was ever collected), else the
/// instant ninety days before `now`.
pub open spec fn floor_spec(created: (int, int), now: (int, int)) -> Option<(int, int)> {
    if later(created, (now.0 - horizon_secs(), now.1)) {
        None
    } else {
        Some((now.0 - horizon_secs(), now.1))
    }
}

/// `floor_spec` on the stored creation time; text chrono refuses is an error.
pub fn floor_at(created: Option<&str>, now: (i64, u32)) -> (r: Result<Option<String>, String>)
    requires
        now.0 > i64::MIN + 7_776_000,
    ensures
        match created {
            None => r == Ok::<Option<String>, String>(None),
            Some(c) => match rfc3339_instant(c@) {
                None => r is Err,
                Some(p) => match floor_spec(p, (now.0 as int, now.1 as int)) {
                    None => r == Ok::<Option<String>, String>(None),
                    Some(f) => match r {
                        Ok(Some(t)) => iso_of(f.0, f.1) == Some(t@),
                        Ok(None) => false,
                        Err(_) => iso_of(f.0, f.1) is None,
                    },
                },
            },
        },
{
    match created {
        None => Ok(None),
        Some(c) => match parse_rfc3339(c) {
            None => Err(cat("invalid db_meta.created_at: ", c)),
            Some(p) => {
                let f = (now.0 - 7_776_000, now.1);
                if p.0 > f.0 || (p.0 == f.0 && p.1 > f.1) {
                    Ok(None)
                } else {
                    Ok(Some(fmt_iso(f)?))
                }
            },
        },
    }
}

/// The tombstone horizon now (see `floor_at`).
pub fn tombstone_floor(db: &mut Db) -> (r: Result<Option<String>, String>)
    ensures
        grew(old(db).log@, final(db).log@),
        no_writes(old(db).log@, final(db).log@),
        r matches Ok(Some(t)) ==> exists|a: int, b: int| #[trigger] iso_of(a, b) == Some(t@),
{
    let created = db_meta_value(db, "created_at")?;
    let now = clock_now()?;
    if now.0 <= i64::MIN + 7_776_000 {
        return Err("clock out of range".to_owned());
    }
    let r = match &created {
        Some(c) => floor_at(Some(c.as_str()), now),
        None => floor_at(None, now),
    };
    proof {
        if let Ok(Some(t)) = &r {
            if let Some(c) = &created {
                if let Some(p) = rfc3339_instant(c@) {
                    if let Some(f) = floor_spec(p, (now.0 as int, now.1 as int)) {
                        assert(iso_of(f.0, f.1) == Some(t@));
                    }
                }
            }
        }
    }
    r
}

/// The array member `key` of a bundle, copied; empty when there is none.
pub fn bundle_arr(bundle: &Json, key: &str) -> (r: Vec<Json>)
    ensures
        bundle@.field(key@) matches Some(JsonV::Array(a)) ==> r@.map_values(|x: Json| x@) == a,
        !(bundle@.field(key@) matches Some(JsonV::Array(_))) ==> r.len() == 0,
{
    match bundle.get(key) {
        Some(v) => match v.as_array() {
            Some(a) => {
                let mut out: Vec<Json> = Vec::new();
                let mut i: usize = 0;
                while i < a.len()
                    invariant
                        0 <= i <= a.len(),
                        out.len() == i,
                        forall|j: int| 0 <= j < i ==> (#[trigger] out@[j])@ == a@[j]@,
                    decreases a.len() - i,
                {
                    out.push(a[i].clone_json());
                    i = i + 1;
                }
                assert(out@.map_values(|x: Json| x@) =~= a@.map_values(|x: Json| x@));
                out
            },
            None => Vec::new(),
        },
        None => Vec::new(),
    }
}

/// A business time of a bundle row, normalised as `clamp_business_time` does.
pub fn norm_incoming_time(v: &Json, key: &str) -> (r: Result<String, String>)
    ensures
        clamped_somewhen(v@.field_text(key@), r),
{
    let s = v.get_str(key);
    match &s {
        Some(t) => clamp_business_time(Some(t.as_str()), key),
        None => clamp_business_time(None, key),
    }
}

/// `{entity_type, entity_id, kept, dropped, reason}`.
pub fn conflict_entry(etype: &str, eid: &str, kept: Json, dropped: Json, reason: &str) -> (r: Json)
    ensures
        r@ == JsonV::Object(
            seq![
                ("entity_type"@, JsonV::Str(etype@)),
                ("entity_id"@, JsonV::Str(eid@)),
                ("kept"@, kept@),
                ("dropped"@, dropped@),
                ("reason"@, JsonV::Str(reason@)),
            ],
        ),
{
    let ghost kv = kept@;
    let ghost dv = dropped@;
    let es = vec![
        entry("entity_type", Json::from_str(etype)),
        entry("entity_id", Json::from_str(eid)),
        entry("kept", kept),
        entry("dropped", dropped),
        entry("reason", Json::from_str(reason)),
    ];
    proof {
        lemma_object_view(es);
        let want = seq![
            ("entity_type"@, JsonV::Str(etype@)),
            ("entity_id"@, JsonV::Str(eid@)),
            ("kept"@, kv),
            ("dropped"@, dv),
            ("reason"@, JsonV::Str(reason@)),
        ];
        assert(Json::Object(es)@->Object_0 =~= want);
    }
    Json::Object(es)
}

fn pair(k: &str, v: Json) -> (r: Json)
    ensures
        r@ == JsonV::Object(seq![(k@, v@)]),
{
    let ghost vv = v@;
    let es = vec![entry(k, v)];
    proof {
        lemma_object_view(es);
        assert(Json::Object(es)@->Object_0 =~= seq![(k@, vv)]);
    }
    Json::Object(es)
}

/// What the store holds that the merge decides on.
pub struct LocalRows {
    pub banks: Vec<(String, String)>,
    pub questions: Vec<(String, QRow)>,
    pub bank_tombs: Vec<(String, Tomb)>,
    pub question_tombs: Vec<(String, Tomb)>,
}

fn text_or_empty(o: Option<String>) -> (r: String)
    ensures
        r@ == match o {
            Some(s) => s@,
            None => Seq::<char>::empty(),
        },
{
    match o {
        Some(s) => s,
        None => String::new(),
    }
}

/// Reads the banks, questions and tombstones of the store.
pub fn read_local(db: &mut Db) -> (r: Result<LocalRows, String>)
    ensures
        grew(old(db).log@, final(db).log@),
        no_writes(old(db).log@, final(db).log@),
{
    let mut banks: Vec<(String, String)> = Vec::new();
    let ghost lr0 = db.log@;
    let rows = db_query(db, "SELECT id, updated_at FROM banks", &vec![], 2)?;
    proof {
        lemma_no_writes_trans(old(db).log@, lr0, db.log@);
    }
    let mut i: usize = 0;
    while i < rows.len()
        invariant
            grew(old(db).log@, db.log@),
            no_writes(old(db).log@, db.log@),
            0 <= i <= rows.len(),
            forall|j: int| 0 <= j < rows.len() ==> (#[trigger] rows@[j]).len() == 2,
        decreases rows.len() - i,
    {
        banks.push((text_or_empty(col_text(&rows[i], 0)), text_or_empty(col_text(&rows[i], 1))));
        i = i + 1;
    }
    let mut questions: Vec<(String, QRow)> = Vec::new();
    let ghost lr1 = db.log@;
    let rows = db_query(db, "SELECT id, updated_at, bank_id FROM questions", &vec![], 3)?;
    proof {
        lemma_no_writes_trans(old(db).log@, lr1, db.log@);
    }
    let mut i: usize = 0;
    while i < rows.len()
        invariant
            grew(old(db).log@, db.log@),
            no_writes(old(db).log@, db.log@),
            0 <= i <= rows.len(),
            forall|j: int| 0 <= j < rows.len() ==> (#[trigger] rows@[j]).len() == 3,
        decreases rows.len() - i,
    {
        questions.push(
            (
                text_or_empty(col_text(&rows[i], 0)),
                QRow { updated_at: text_or_empty(col_text(&rows[i], 1)), bank_id: col_text(&rows[i], 2) },
            ),
        );
        i = i + 1;
    }
    let mut bank_tombs: Vec<(String, Tomb)> = Vec::new();
    let mut question_tombs: Vec<(String, Tomb)> = Vec::new();
    let ghost lr2 = db.log@;
    let rows = db_query(
        db,
        "SELECT entity_type, entity_id, deleted_at, bank_id, actor, synced_at FROM delete_log",
        &vec![],
        6,
    )?;
    proof {
        lemma_no_writes_trans(old(db).log@, lr2, db.log@);
    }
    let mut i: usize = 0;
    while i < rows.len()
        invariant
            grew(old(db).log@, db.log@),
            no_writes(old(db).log@, db.log@),
            0 <= i <= rows.len(),
            forall|j: int| 0 <= j < rows.len() ==> (#[trigger] rows@[j]).len() == 6,
        decreases rows.len() - i,
    {
        let row = &rows[i];
        let et = text_or_empty(col_text(row, 0));
        let t = Tomb {
            bank_id: col_text(row, 3),
            deleted_at: text_or_empty(col_text(row, 2)),
            actor: col_text(row, 4),
            synced_at: text_or_empty(col_text(row, 5)),
        };
        if str_eq(et.as_str(), "bank") {
            bank_tombs.push((text_or_empty(col_text(row, 1)), t));
        } else {
            question_tombs.push((text_or_empty(col_text(row, 1)), t));
        }
        i = i + 1;
    }
    Ok(LocalRows { banks, questions, bank_tombs, question_tombs })
}

/// The rows and tombstones of a bundle, keyed by id.
pub struct BundleRows {
    pub banks: Vec<(String, Json)>,
    pub questions: Vec<(String, Json)>,
    pub bank_tombs: Vec<(String, Tomb)>,
    pub question_tombs: Vec<(String, Tomb)>,
}

/// Every item of the array member `key` is an object with a string `field`.
pub open spec fn all_have_text(bundle: JsonV, key: Seq<char>, field: Seq<char>) -> bool {
    match bundle.field(key) {
        Some(JsonV::Array(a)) => forall|i: int| 0 <= i < a.len() ==> (#[trigger] a[i]).field_text(field) is Some,
        _ => true,
    }
}

/// A tombstone of a bundle names its kind (`bank` or `question`) and entity.
pub open spec fn tomb_item_ok(t: JsonV) -> bool {
    &&& (t.field_text("entity_type"@) == Some("bank"@) || t.field_text("entity_type"@) == Some("question"@))
    &&& t.field_text("entity_id"@) is Some
}

pub open spec fn tombs_ok(bundle: JsonV) -> bool {
    match bundle.field("tombstones"@) {
        Some(JsonV::Array(a)) => forall|i: int| 0 <= i < a.len() ==> tomb_item_ok(#[trigger] a[i]),
        _ => true,
    }
}

/// What a bundle must satisfy for an apply to succeed.
pub open spec fn bundle_ok(bundle: JsonV) -> bool {
    &&& all_have_text(bundle, "banks"@, "id"@)
    &&& all_have_text(bundle, "questions"@, "id"@)
    &&& tombs_ok(bundle)
    &&& all_have_text(bundle, "records"@, "id"@)
    &&& all_have_text(bundle, "records"@, "question_id"@)
    &&& all_have_text(bundle, "review_state"@, "question_id"@)
    &&& all_have_text(bundle, "wrong_dismiss"@, "question_id"@)
    &&& all_have_text(bundle, "settings"@, "key"@)
}

proof fn lemma_items_have(bundle: JsonV, key: Seq<char>, items: Seq<Json>, f: Seq<char>)
    requires
        bundle.field(key) matches Some(JsonV::Array(a)) ==> items.map_values(|x: Json| x@) == a,
        forall|j: int| 0 <= j < items.len() ==> (#[trigger] items[j])@.field_text(f) is Some,
    ensures
        all_have_text(bundle, key, f),
{
    if let Some(JsonV::Array(a)) = bundle.field(key) {
        assert forall|i: int| 0 <= i < a.len() implies (#[trigger] a[i]).field_text(f) is Some by {
            assert(items.map_values(|x: Json| x@)[i] == a[i]);
        }
    }
}

/// The rows of an item list, each with its id, in order.
pub open spec fn rows_of(rows: Seq<(String, Json)>, items: Seq<JsonV>) -> bool {
    &&& rows.len() == items.len()
    &&& forall|i: int| 0 <= i < rows.len() ==> (#[trigger] rows[i]).1@ == items[i] && items[i].field_text("id"@) == Some(rows[i].0@)
}

fn keyed_rows(items: &Vec<Json>, missing: &str) -> (r: Result<Vec<(String, Json)>, String>)
    ensures
        r is Ok <==> forall|i: int| 0 <= i < items.len() ==> (#[trigger] items@[i])@.field_text("id"@) is Some,
        r matches Ok(v) ==> rows_of(v@, items@.map_values(|x: Json| x@)),
{
    let mut out: Vec<(String, Json)> = Vec::new();
    let mut i: usize = 0;
    while i < items.len()
        invariant
            0 <= i <= items.len(),
            forall|j: int| 0 <= j < i ==> (#[trigger] items@[j])@.field_text("id"@) is Some,
            out.len() == i,
            forall|j: int| 0 <= j < i ==> (#[trigger] out@[j]).1@ == items@[j]@ && items@[j]@.field_text("id"@) == Some(out@[j].0@),
        decreases items.len() - i,
    {
        match items[i].get_str("id") {
            Some(id) => out.push((id, items[i].clone_json())),
            None => {
                return Err(missing.to_owned());
            },
        }
        i = i + 1;
    }
    Ok(out)
}

/// The rows of the array member `key` of a bundle (none without one).
pub open spec fn bundle_rows(rows: Seq<(String, Json)>, bundle: JsonV, key: Seq<char>) -> bool {
    match bundle.field(key) {
        Some(JsonV::Array(a)) => rows_of(rows, a),
        _ => rows.len() == 0,
    }
}

/// A tombstone of the bundle as the merge reads it: entity id, bank, the
/// normalised deletion time, the actor (else the bundle's device).
pub open spec fn tomb_from(item: JsonV, device: Option<Seq<char>>, id: String, t: Tomb) -> bool {
    &&& item.field_text("entity_id"@) == Some(id@)
    &&& oview(t.bank_id) == item.field_text("bank_id"@)
    &&& clamped_somewhen(item.field_text("deleted_at"@), Ok::<String, String>(t.deleted_at))
    &&& oview(t.actor) == match item.field_text("actor"@) {
        Some(a) => Some(a),
        None => device,
    }
    &&& item.field_text("synced_at"@) matches Some(s) ==> t.synced_at@ == s
}

/// The tombstone comes from a tombstone of the bundle of kind `kind`.
pub open spec fn tomb_src(e: (String, Tomb), items: Seq<JsonV>, device: Option<Seq<char>>, kind: Seq<char>) -> bool {
    exists|j: int| 0 <= j < items.len() && (#[trigger] items[j]).field_text("entity_type"@) == Some(kind) && tomb_from(items[j], device, e.0, e.1)
}

/// Each tombstone of the list comes from a tombstone of the bundle of kind `kind`.
pub open spec fn tombs_from(ts: Seq<(String, Tomb)>, items: Seq<JsonV>, device: Option<Seq<char>>, kind: Seq<char>) -> bool {
    forall|i: int| 0 <= i < ts.len() ==> #[trigger] tomb_src(ts[i], items, device, kind)
}

/// Reads the rows and tombstones of a bundle. A bank or question without a
/// string id, or a tombstone whose kind is neither `bank` nor `question`, that
/// lacks an entity id, or whose `deleted_at` is not a time, is an error.
/// Among tombstones of one entity the latest `deleted_at` wins, the later
/// one a tie; a tombstone without an actor takes the bundle's device.
pub fn parse_bundle(bundle: &Json) -> (r: Result<BundleRows, String>)
    ensures
        r is Ok ==> all_have_text(bundle@, "banks"@, "id"@) && all_have_text(bundle@, "questions"@, "id"@)
            && tombs_ok(bundle@),
        r matches Ok(b) ==> {
            &&& bundle_rows(b.banks@, bundle@, "banks"@)
            &&& bundle_rows(b.questions@, bundle@, "questions"@)
            &&& bundle@.field("tombstones"@) matches Some(JsonV::Array(a)) ==> {
                &&& b.bank_tombs.len() + b.question_tombs.len() == a.len()
                &&& tombs_from(b.bank_tombs@, a, bundle@.field_text("device_id"@), "bank"@)
                &&& tombs_from(b.question_tombs@, a, bundle@.field_text("device_id"@), "question"@)
            }
            &&& !(bundle@.field("tombstones"@) matches Some(JsonV::Array(_))) ==> b.bank_tombs.len() + b.question_tombs.len() == 0
        },
{
    let device_id = bundle.get_str("device_id");
    let bs = bundle_arr(bundle, "banks");
    let banks = keyed_rows(&bs, "sync bundle: bank missing id")?;
    let qs = bundle_arr(bundle, "questions");
    let questions = keyed_rows(&qs, "sync bundle: question missing id")?;
    proof {
        if let Some(JsonV::Array(a)) = bundle@.field("banks"@) {
            assert forall|i: int| 0 <= i < a.len() implies (#[trigger] a[i]).field_text("id"@) is Some by {
                assert(bs@.map_values(|x: Json| x@)[i] == a[i]);
            }
        }
        if let Some(JsonV::Array(a)) = bundle@.field("questions"@) {
            assert forall|i: int| 0 <= i < a.len() implies (#[trigger] a[i]).field_text("id"@) is Some by {
                assert(qs@.map_values(|x: Json| x@)[i] == a[i]);
            }
        }
    }
    let ts = bundle_arr(bundle, "tombstones");
    let mut bank_tombs: Vec<(String, Tomb)> = Vec::new();
    let mut question_tombs: Vec<(String, Tomb)> = Vec::new();
    let ghost mut bsrc: Seq<int> = seq![];
    let ghost mut qsrc: Seq<int> = seq![];
    let mut i: usize = 0;
    while i < ts.len()
        invariant
            0 <= i <= ts.len(),
            forall|j: int| 0 <= j < i ==> tomb_item_ok((#[trigger] ts@[j])@),
            bank_tombs.len() + question_tombs.len() == i,
            device_id matches Some(d) ==> bundle@.field_text("device_id"@) == Some(d@),
            device_id is None ==> bundle@.field_text("device_id"@) is None,
            bsrc.len() == bank_tombs.len(),
            qsrc.len() == question_tombs.len(),
            forall|m: int| 0 <= m < bank_tombs.len() ==> 0 <= #[trigger] bsrc[m] < i && ts@[bsrc[m]]@.field_text("entity_type"@) == Some("bank"@)
                && tomb_from(ts@[bsrc[m]]@, bundle@.field_text("device_id"@), bank_tombs@[m].0, bank_tombs@[m].1),
            forall|m: int| 0 <= m < question_tombs.len() ==> 0 <= #[trigger] qsrc[m] < i && ts@[qsrc[m]]@.field_text("entity_type"@) == Some("question"@)
                && tomb_from(ts@[qsrc[m]]@, bundle@.field_text("device_id"@), question_tombs@[m].0, question_tombs@[m].1),
        decreases ts.len() - i,
    {
        let t = &ts[i];
        let et = match t.get_str("entity_type") {
            Some(e) => e,
            None => {
                return Err("sync bundle: bad tombstone entity_type".to_owned());
            },
        };
        let is_bank = str_eq(et.as_str(), "bank");
        if !is_bank && !str_eq(et.as_str(), "question") {
            return Err("sync bundle: bad tombstone entity_type".to_owned());
        }
        let eid = match t.get_str("entity_id") {
            Some(e) => e,
            None => {
                return Err("sync bundle: tombstone missing entity_id".to_owned());
            },
        };
        let deleted_at = norm_incoming_time(t, "deleted_at")?;
        let actor = match t.get_str("actor") {
            Some(a) => Some(a),
            None => match &device_id {
                Some(d) => Some(d.clone()),
                None => None,
            },
        };
        let synced_at = match t.get_str("synced_at") {
            Some(s) => s,
            None => now_iso()?,
        };
        let tomb = Tomb { bank_id: t.get_str("bank_id"), deleted_at, actor, synced_at };
        assert(tomb_from(ts@[i as int]@, bundle@.field_text("device_id"@), eid, tomb));
        let ghost cur = i as int;
        if is_bank {
            bank_tombs.push((eid, tomb));
            proof {
                bsrc = bsrc.push(cur);
            }
        } else {
            question_tombs.push((eid, tomb));
            proof {
                qsrc = qsrc.push(cur);
            }
        }
        i = i + 1;
    }
    proof {
        if let Some(JsonV::Array(a)) = bundle@.field("tombstones"@) {
            assert forall|k: int| 0 <= k < a.len() implies tomb_item_ok(#[trigger] a[k]) by {
                assert(ts@.map_values(|x: Json| x@)[k] == a[k]);
            }
            let dev = bundle@.field_text("device_id"@);
            assert forall|m: int| 0 <= m < bank_tombs.len() implies #[trigger] tomb_src(bank_tombs@[m], a, dev, "bank"@) by {
                let j = bsrc[m];
                assert(ts@.map_values(|x: Json| x@)[j] == a[j]);
            }
            assert forall|m: int| 0 <= m < question_tombs.len() implies #[trigger] tomb_src(question_tombs@[m], a, dev, "question"@) by {
                let j = qsrc[m];
                assert(ts@.map_values(|x: Json| x@)[j] == a[j]);
            }
        }
    }
    Ok(BundleRows { banks, questions, bank_tombs, question_tombs })
}

/// No later entry has the key of entry `k`.
pub open spec fn is_last(es: Seq<(String, Json)>, k: int) -> bool {
    forall|j: int| k < j < es.len() ==> (#[trigger] es[j]).0@ != es[k].0@
}

fn last_for_key(es: &Vec<(String, Json)>, k: usize) -> (r: bool)
    requires
        k < es.len(),
    ensures
        r == is_last(es@, k as int),
{
    let mut j = k + 1;
    while j < es.len()
        invariant
            k < j <= es.len(),
            forall|i: int| k < i < j ==> (#[trigger] es@[i]).0@ != es@[k as int].0@,
        decreases es.len() - j,
    {
        if str_eq(es[j].0.as_str(), es[k].0.as_str()) {
            return false;
        }
        j = j + 1;
    }
    true
}

/// The positions, among the first `n`, of the last entry of each id, in order.
pub open spec fn last_idx(es: Seq<(String, Json)>, n: int) -> Seq<int>
    decreases n,
{
    if n <= 0 {
        seq![]
    } else if is_last(es, n - 1) {
        last_idx(es, n - 1).push(n - 1)
    } else {
        last_idx(es, n - 1)
    }
}

/// A row's business time as read by `norm_incoming_time` at some instant.
pub open spec fn time_of_row(row: JsonV, t: String) -> bool {
    clamped_somewhen(row.field_text("updated_at"@), Ok::<String, String>(t))
}

/// The incoming bank times: one per id, from the last row of that id.
pub open spec fn times_ok(es: Seq<(String, Json)>, v: Seq<(String, String)>) -> bool {
    let ix = last_idx(es, es.len() as int);
    &&& v.len() == ix.len()
    &&& forall|i: int| 0 <= i < v.len() ==> (#[trigger] v[i]).0@ == es[ix[i]].0@ && time_of_row(es[ix[i]].1@, v[i].1)
}

/// The incoming question rows: one per id, from the last row of that id,
/// with its time and its bank.
pub open spec fn qrows_ok(es: Seq<(String, Json)>, v: Seq<(String, QRow)>) -> bool {
    let ix = last_idx(es, es.len() as int);
    &&& v.len() == ix.len()
    &&& forall|i: int|
        0 <= i < v.len() ==> (#[trigger] v[i]).0@ == es[ix[i]].0@ && time_of_row(es[ix[i]].1@, v[i].1.updated_at) && oview(
            v[i].1.bank_id,
        ) == es[ix[i]].1@.field_text("bank_id"@)
}

/// The normalised business times of the rows the merge sees (the last row of
/// each id); a time that cannot be read is an error.
fn row_times(es: &Vec<(String, Json)>) -> (r: Result<Vec<(String, String)>, String>)
    ensures
        r matches Ok(v) ==> times_ok(es@, v@),
{
    let mut out: Vec<(String, String)> = Vec::new();
    let mut k: usize = 0;
    while k < es.len()
        invariant
            0 <= k <= es.len(),
            out.len() == last_idx(es@, k as int).len(),
            forall|i: int| 0 <= i < out.len() ==> (#[trigger] out@[i]).0@ == es@[last_idx(es@, k as int)[i]].0@
                && time_of_row(es@[last_idx(es@, k as int)[i]].1@, out@[i].1),
        decreases es.len() - k,
    {
        if last_for_key(es, k) {
            let u = norm_incoming_time(&es[k].1, "updated_at")?;
            out.push((es[k].0.clone(), u));
        }
        k = k + 1;
    }
    Ok(out)
}

/// The question rows the merge sees (the last row of each id): the
/// normalised business time and the bank; a time that cannot be read is an
/// error.
fn question_rows(es: &Vec<(String, Json)>) -> (r: Result<Vec<(String, QRow)>, String>)
    ensures
        r matches Ok(v) ==> qrows_ok(es@, v@),
{
    let mut out: Vec<(String, QRow)> = Vec::new();
    let mut k: usize = 0;
    while k < es.len()
        invariant
            0 <= k <= es.len(),
            out.len() == last_idx(es@, k as int).len(),
            forall|i: int| 0 <= i < out.len() ==> (#[trigger] out@[i]).0@ == es@[last_idx(es@, k as int)[i]].0@
                && time_of_row(es@[last_idx(es@, k as int)[i]].1@, out@[i].1.updated_at)
                && oview(out@[i].1.bank_id) == es@[last_idx(es@, k as int)[i]].1@.field_text("bank_id"@),
        decreases es.len() - k,
    {
        if last_for_key(es, k) {
            let u = norm_incoming_time(&es[k].1, "updated_at")?;
            out.push((es[k].0.clone(), QRow { updated_at: u, bank_id: es[k].1.get_str("bank_id") }));
        }
        k = k + 1;
    }
    Ok(out)
}

/// `{entity_type, entity_id, kept, dropped, reason}`.
pub open spec fn conflict_v(et: Seq<char>, id: Seq<char>, kept: JsonV, dropped: JsonV, reason: Seq<char>) -> JsonV {
    JsonV::Object(
        seq![
            ("entity_type"@, JsonV::Str(et)),
            ("entity_id"@, JsonV::Str(id)),
            ("kept"@, kept),
            ("dropped"@, dropped),
            ("reason"@, JsonV::Str(reason)),
        ],
    )
}

/// `{k: v}`.
pub open spec fn pair_v(k: Seq<char>, v: JsonV) -> JsonV {
    JsonV::Object(seq![(k, v)])
}

/// A text as a string, `null` without one.
pub open spec fn str_or_null(o: Option<Seq<char>>) -> JsonV {
    match o {
        Some(t) => JsonV::Str(t),
        None => JsonV::Null,
    }
}

pub open spec fn deleted_at_of(t: Option<Tomb>) -> Option<Seq<char>> {
    match t {
        Some(x) => Some(x.deleted_at@),
        None => None,
    }
}

/// The reports of ignored zombie tombstones.
pub open spec fn zombie_tomb_seg(inp: MergeInput, ids: Seq<String>, k: Kind, et: Seq<char>) -> Seq<JsonV> {
    Seq::new(
        ids.len(),
        |i: int|
            conflict_v(
                et,
                ids[i]@,
                pair_v("tombstones"@, JsonV::Str("none"@)),
                pair_v("deleted_at"@, str_or_null(deleted_at_of(inp.eff_tomb(k, ids[i]@)))),
                "zombie-tombstone-ignored: older than tombstone_floor"@,
            ),
    )
}

/// The reports of dropped zombie rows.
pub open spec fn zombie_row_seg(inp: MergeInput, ids: Seq<String>, k: Kind, et: Seq<char>) -> Seq<JsonV> {
    Seq::new(
        ids.len(),
        |i: int|
            conflict_v(
                et,
                ids[i]@,
                pair_v("rows"@, JsonV::Str("none"@)),
                pair_v("updated_at"@, str_or_null(inp.in_time(k, ids[i]@))),
                "zombie-row-dropped: older than tombstone_floor, never seen"@,
            ),
    )
}

/// The reports of edits that beat a tombstone.
pub open spec fn edit_seg(inp: MergeInput, ids: Seq<String>, k: Kind, et: Seq<char>) -> Seq<JsonV> {
    Seq::new(
        ids.len(),
        |i: int|
            conflict_v(
                et,
                ids[i]@,
                pair_v("updated_at"@, str_or_null(inp.row_time(k, ids[i]@))),
                pair_v("deleted_at"@, str_or_null(deleted_at_of(inp.eff_tomb(k, ids[i]@)))),
                "edit-beats-tombstone: row kept, tombstone dropped"@,
            ),
    )
}

/// The reports of entities the zero-bank guard kept.
pub open spec fn guard_seg(ids: Seq<String>, et: Seq<char>, kept_key: Seq<char>, reason: Seq<char>) -> Seq<JsonV> {
    Seq::new(
        ids.len(),
        |i: int|
            conflict_v(
                et,
                ids[i]@,
                pair_v(kept_key, JsonV::Str("kept"@)),
                pair_v("tombstone"@, JsonV::Str("skipped"@)),
                reason,
            ),
    )
}

/// The reports of questions moved to the fallback bank.
pub open spec fn rebank_seg(inp: MergeInput, ids: Seq<String>, fallback: Option<Seq<char>>, now: Seq<char>) -> Seq<JsonV> {
    Seq::new(
        ids.len(),
        |i: int|
            conflict_v(
                "question"@,
                ids[i]@,
                JsonV::Object(seq![("bank_id"@, str_or_null(fallback)), ("updated_at"@, JsonV::Str(now))]),
                pair_v("bank_id"@, str_or_null(inp.qbank(ids[i]@))),
                "bank-deleted-survivor-rebanked"@,
            ),
    )
}

/// Everything Phase A reports, in order.
pub open spec fn plan_conflicts_spec(inp: MergeInput, p: MergePlan, now: Seq<char>) -> Seq<JsonV> {
    zombie_tomb_seg(inp, p.zombie_bank_tombs@, Kind::Bank, "bank"@) + zombie_tomb_seg(
        inp,
        p.zombie_question_tombs@,
        Kind::Question,
        "question"@,
    ) + zombie_row_seg(inp, p.zombie_bank_rows@, Kind::Bank, "bank"@) + zombie_row_seg(
        inp,
        p.zombie_question_rows@,
        Kind::Question,
        "question"@,
    ) + edit_seg(inp, p.drop_bank_tombs@, Kind::Bank, "bank"@) + edit_seg(
        inp,
        p.drop_question_tombs@,
        Kind::Question,
        "question"@,
    ) + guard_seg(p.guard_banks@, "bank"@, "banks"@, "zero-bank-guard: whole cascade skipped, tombstone NOT logged"@)
        + guard_seg(
        p.guard_questions@,
        "question"@,
        "rows"@,
        "zero-bank-guard: question tombstone skipped with bank cascade, NOT logged"@,
    ) + rebank_seg(inp, p.rebanked@, oview(p.fallback), now)
}

pub open spec fn views(v: Seq<Json>) -> Seq<JsonV> {
    v.map_values(|x: Json| x@)
}

proof fn lemma_views_push(v: Seq<Json>, x: Json)
    ensures
        views(v.push(x)) == views(v).push(x@),
{
    assert(views(v.push(x)) =~= views(v).push(x@));
}

fn push_zombie_tombs(inp: &MergeInput, ids: &Vec<String>, k: Kind, et: &str, out: &mut Vec<Json>)
    ensures
        views(final(out)@) == views(old(out)@) + zombie_tomb_seg(*inp, ids@, k, et@),
{
    let ghost start = views(out@);
    let mut i: usize = 0;
    while i < ids.len()
        invariant
            0 <= i <= ids.len(),
            views(out@) == start + zombie_tomb_seg(*inp, ids@, k, et@).take(i as int),
        decreases ids.len() - i,
    {
        let id = &ids[i];
        let d = match inp.eff_tomb_of(k, id) {
            Some(t) => Json::Str(t.deleted_at.clone()),
            None => Json::Null,
        };
        let e = conflict_entry(et, id.as_str(), pair("tombstones", Json::from_str("none")), pair("deleted_at", d), "zombie-tombstone-ignored: older than tombstone_floor");
        proof {
            lemma_views_push(out@, e);
        }
        out.push(e);
        assert(views(out@) =~= start + zombie_tomb_seg(*inp, ids@, k, et@).take(i + 1));
        i = i + 1;
    }
    assert(zombie_tomb_seg(*inp, ids@, k, et@).take(ids.len() as int) =~= zombie_tomb_seg(*inp, ids@, k, et@));
}

fn push_zombie_rows(inp: &MergeInput, ids: &Vec<String>, k: Kind, et: &str, out: &mut Vec<Json>)
    ensures
        views(final(out)@) == views(old(out)@) + zombie_row_seg(*inp, ids@, k, et@),
{
    let ghost start = views(out@);
    let mut i: usize = 0;
    while i < ids.len()
        invariant
            0 <= i <= ids.len(),
            views(out@) == start + zombie_row_seg(*inp, ids@, k, et@).take(i as int),
        decreases ids.len() - i,
    {
        let id = &ids[i];
        let u = match inp.in_time_of(k, id) {
            Some(t) => Json::Str(t.clone()),
            None => Json::Null,
        };
        let e = conflict_entry(et, id.as_str(), pair("rows", Json::from_str("none")), pair("updated_at", u), "zombie-row-dropped: older than tombstone_floor, never seen");
        proof {
            lemma_views_push(out@, e);
        }
        out.push(e);
        assert(views(out@) =~= start + zombie_row_seg(*inp, ids@, k, et@).take(i + 1));
        i = i + 1;
    }
    assert(zombie_row_seg(*inp, ids@, k, et@).take(ids.len() as int) =~= zombie_row_seg(*inp, ids@, k, et@));
}

fn edit_conflicts(inp: &MergeInput, ids: &Vec<String>, k: Kind, et: &str, out: &mut Vec<Json>)
    ensures
        views(final(out)@) == views(old(out)@) + edit_seg(*inp, ids@, k, et@),
{
    let ghost start = views(out@);
    let mut i: usize = 0;
    while i < ids.len()
        invariant
            0 <= i <= ids.len(),
            views(out@) == start + edit_seg(*inp, ids@, k, et@).take(i as int),
        decreases ids.len() - i,
    {
        let id = &ids[i];
        let rt = match inp.row_time_of(k, id) {
            Some(t) => Json::Str(t.clone()),
            None => Json::Null,
        };
        let d = match inp.eff_tomb_of(k, id) {
            Some(t) => Json::Str(t.deleted_at.clone()),
            None => Json::Null,
        };
        let e = conflict_entry(et, id.as_str(), pair("updated_at", rt), pair("deleted_at", d), "edit-beats-tombstone: row kept, tombstone dropped");
        proof {
            lemma_views_push(out@, e);
        }
        out.push(e);
        assert(views(out@) =~= start + edit_seg(*inp, ids@, k, et@).take(i + 1));
        i = i + 1;
    }
    assert(edit_seg(*inp, ids@, k, et@).take(ids.len() as int) =~= edit_seg(*inp, ids@, k, et@));
}

fn push_guarded(ids: &Vec<String>, et: &str, kept_key: &str, reason: &str, out: &mut Vec<Json>)
    ensures
        views(final(out)@) == views(old(out)@) + guard_seg(ids@, et@, kept_key@, reason@),
{
    let ghost start = views(out@);
    let mut i: usize = 0;
    while i < ids.len()
        invariant
            0 <= i <= ids.len(),
            views(out@) == start + guard_seg(ids@, et@, kept_key@, reason@).take(i as int),
        decreases ids.len() - i,
    {
        let e = conflict_entry(et, ids[i].as_str(), pair(kept_key, Json::from_str("kept")), pair("tombstone", Json::from_str("skipped")), reason);
        proof {
            lemma_views_push(out@, e);
        }
        out.push(e);
        assert(views(out@) =~= start + guard_seg(ids@, et@, kept_key@, reason@).take(i + 1));
        i = i + 1;
    }
    assert(guard_seg(ids@, et@, kept_key@, reason@).take(ids.len() as int) =~= guard_seg(ids@, et@, kept_key@, reason@));
}

fn push_rebanked(inp: &MergeInput, p: &MergePlan, cascade_now: &str, out: &mut Vec<Json>)
    ensures
        views(final(out)@) == views(old(out)@) + rebank_seg(*inp, p.rebanked@, oview(p.fallback), cascade_now@),
{
    let ghost start = views(out@);
    let ghost want = rebank_seg(*inp, p.rebanked@, oview(p.fallback), cascade_now@);
    let fb = match &p.fallback {
        Some(f) => Json::Str(f.clone()),
        None => Json::Null,
    };
    let mut i: usize = 0;
    while i < p.rebanked.len()
        invariant
            0 <= i <= p.rebanked.len(),
            fb@ == str_or_null(oview(p.fallback)),
            want == rebank_seg(*inp, p.rebanked@, oview(p.fallback), cascade_now@),
            views(out@) == start + want.take(i as int),
        decreases p.rebanked.len() - i,
    {
        let id = &p.rebanked[i];
        let old_bank = match inp.qbank_of(id) {
            Some(b) => Json::Str(b.clone()),
            None => Json::Null,
        };
        let kes = vec![entry("bank_id", fb.clone_json()), entry("updated_at", Json::from_str(cascade_now))];
        proof {
            lemma_object_view(kes);
            assert(Json::Object(kes)@->Object_0 =~= seq![("bank_id"@, str_or_null(oview(p.fallback))), ("updated_at"@, JsonV::Str(cascade_now@))]);
        }
        let kept = Json::Object(kes);
        let e = conflict_entry("question", id.as_str(), kept, pair("bank_id", old_bank), "bank-deleted-survivor-rebanked");
        proof {
            lemma_views_push(out@, e);
        }
        out.push(e);
        assert(views(out@) =~= start + want.take(i + 1));
        i = i + 1;
    }
    assert(want.take(p.rebanked.len() as int) =~= want);
}

/// The conflicts Phase A reports, by kind of decision.
fn plan_conflicts(inp: &MergeInput, p: &MergePlan, cascade_now: &str) -> (r: Vec<Json>)
    ensures
        views(r@) == plan_conflicts_spec(*inp, *p, cascade_now@),
{
    let mut out: Vec<Json> = Vec::new();
    assert(views(out@) =~= Seq::<JsonV>::empty());
    push_zombie_tombs(inp, &p.zombie_bank_tombs, Kind::Bank, "bank", &mut out);
    push_zombie_tombs(inp, &p.zombie_question_tombs, Kind::Question, "question", &mut out);
    push_zombie_rows(inp, &p.zombie_bank_rows, Kind::Bank, "bank", &mut out);
    push_zombie_rows(inp, &p.zombie_question_rows, Kind::Question, "question", &mut out);
    edit_conflicts(inp, &p.drop_bank_tombs, Kind::Bank, "bank", &mut out);
    edit_conflicts(inp, &p.drop_question_tombs, Kind::Question, "question", &mut out);
    push_guarded(&p.guard_banks, "bank", "banks", "zero-bank-guard: whole cascade skipped, tombstone NOT logged", &mut out);
    push_guarded(
        &p.guard_questions,
        "question",
        "rows",
        "zero-bank-guard: question tombstone skipped with bank cascade, NOT logged",
        &mut out,
    );
    push_rebanked(inp, p, cascade_now, &mut out);
    assert(views(out@) =~= plan_conflicts_spec(*inp, *p, cascade_now@));
    out
}

/// The sync stamp of a written row: the hub stamps its own time; a leaf
/// keeps the bundle's stamp when there is one.
pub fn sync_stamp(role: SyncRole, bundle_val: Option<String>, now: &str) -> (r: String)
    ensures
        match role {
            SyncRole::Center => r@ == now@,
            SyncRole::Leaf => match bundle_val {
                Some(b) => r@ == b@,
                None => r@ == now@,
            },
        },
{
    match role {
        SyncRole::Center => now.to_owned(),
        SyncRole::Leaf => match bundle_val {
            Some(b) => b,
            None => now.to_owned(),
        },
    }
}

/// Counters of Phase B.
pub struct Applied {
    pub banks: i64,
    pub questions: i64,
    pub records: i64,
    pub review_state: i64,
    pub wrong_dismiss: i64,
    pub settings: i64,
    pub tombstones: i64,
    pub skipped: i64,
    pub dropped_orphans: i64,
}

fn bump(n: i64, by: usize) -> (r: i64)
    ensures
        r == if by > 1_000_000 || n > i64::MAX - 1_000_000 { n as int } else { n + by },
{
    if by > 1_000_000 || n > i64::MAX - 1_000_000 {
        n
    } else {
        n + by as i64
    }
}

fn gate_sql(head: &str, role: SyncRole) -> (r: String)
    ensures
        r@ == head@ + match role {
            SyncRole::Center => " > "@,
            SyncRole::Leaf => " >= "@,
        },
{
    match role {
        SyncRole::Center => cat(head, " > "),
        SyncRole::Leaf => cat(head, " >= "),
    }
}

/// Writes an incoming bank row where it is newer than the stored one (the
/// comparison, by role, follows).
pub const BANK_ROW_HEAD: &'static str = "INSERT INTO banks (id, name, description, created_at, updated_at, synced_at)
             VALUES (?1, ?2, ?3, ?4, ?5, ?6)
             ON CONFLICT(id) DO UPDATE SET name = excluded.name, description = excluded.description,
               updated_at = excluded.updated_at, synced_at = excluded.synced_at
             WHERE excluded.updated_at";

/// The call wrote the bank `id` with `sql`, with `stamp` as its sync time.
pub open spec fn bank_row_call(c: Call, sql: Seq<char>, id: Seq<char>, stamp: Seq<char>) -> bool {
    c matches Call::Run { sql: s, args: a, .. } && s == sql && a.len() == 6 && a[0] == SqlV::Text(id)
        && a[5] == SqlV::Text(stamp)
}

/// Each of the first `n` banks the plan writes, where the bundle has its row,
/// was written gated by role, stamped as `stamp_of` says.
pub open spec fn bank_rows_upto(log: Seq<Call>, banks: Seq<(String, Json)>, p: MergePlan, role: SyncRole, now: Seq<char>, n: int) -> bool {
    forall|j: int| 0 <= j < n && j < p.write_banks.len() && vmap(banks).contains_key(#[trigger] p.write_banks@[j]@) ==>
        exists|k: int| 0 <= k < log.len() && bank_row_call(#[trigger] log[k], gated(BANK_ROW_HEAD@, role, "banks.updated_at"@),
            p.write_banks@[j]@, stamp_of(role, vmap(banks)[p.write_banks@[j]@]@, now))
}

/// Every bank the plan writes, where the bundle has its row.
pub open spec fn bank_rows_ran(log: Seq<Call>, banks: Seq<(String, Json)>, p: MergePlan, role: SyncRole, now: Seq<char>) -> bool {
    bank_rows_upto(log, banks, p, role, now, p.write_banks.len() as int)
}

proof fn lemma_bank_rows_grew(a: Seq<Call>, b: Seq<Call>, banks: Seq<(String, Json)>, p: MergePlan, role: SyncRole, now: Seq<char>, n: int)
    requires
        grew(a, b),
        bank_rows_upto(a, banks, p, role, now, n),
    ensures
        bank_rows_upto(b, banks, p, role, now, n),
{
    assert forall|j: int| 0 <= j < n && j < p.write_banks.len() && vmap(banks).contains_key(#[trigger] p.write_banks@[j]@) implies
        exists|k: int| 0 <= k < b.len() && bank_row_call(#[trigger] b[k], gated(BANK_ROW_HEAD@, role, "banks.updated_at"@),
            p.write_banks@[j]@, stamp_of(role, vmap(banks)[p.write_banks@[j]@]@, now)) by {
        let k = choose|k: int| 0 <= k < a.len() && bank_row_call(#[trigger] a[k], gated(BANK_ROW_HEAD@, role, "banks.updated_at"@),
            p.write_banks@[j]@, stamp_of(role, vmap(banks)[p.write_banks@[j]@]@, now));
        assert(b[k] == a[k]);
    }
}

fn write_bank_rows(db: &mut Db, rows: &BundleRows, p: &MergePlan, role: SyncRole, now: &str, ap: &mut Applied) -> (r: Result<(), String>)
    ensures
        grew(old(db).log@, final(db).log@),
        final(ap).dropped_orphans == old(ap).dropped_orphans,
        r is Ok ==> bank_rows_ran(final(db).log@, rows.banks@, *p, role, now@),
{
    let sql = cat(gate_sql(BANK_ROW_HEAD, role).as_str(), "banks.updated_at");
    let mut i: usize = 0;
    while i < p.write_banks.len()
        invariant
            grew(old(db).log@, db.log@),
            ap.dropped_orphans == old(ap).dropped_orphans,
            0 <= i <= p.write_banks.len(),
            sql@ == gated(BANK_ROW_HEAD@, role, "banks.updated_at"@),
            bank_rows_upto(db.log@, rows.banks@, *p, role, now@, i as int),
        decreases p.write_banks.len() - i,
    {
        let id = &p.write_banks[i];
        if let Some(b) = vget(&rows.banks, id) {
            let name = text_or_empty(b.get_str("name"));
            let description = b.get_str("description");
            let created = match b.get_str("created_at") {
                Some(c) => c,
                None => now.to_owned(),
            };
            let updated = norm_incoming_time(b, "updated_at")?;
            let synced = sync_stamp(role, b.get_str("synced_at"), now);
            let ghost l0 = db.log@;
            let n = db_execute(
                db,
                sql.as_str(),
                &vec![SqlValue::Text(id.clone()), SqlValue::Text(name), opt_text(&description), SqlValue::Text(created), SqlValue::Text(updated), SqlValue::Text(synced)],
            );
            proof {
                let l = db.log@;
                lemma_bank_rows_grew(l0, l, rows.banks@, *p, role, now@, i as int);
                assert(synced@ == stamp_of(role, vmap(rows.banks@)[id@]@, now@));
                assert(bank_row_call(l[l.len() - 1], sql@, id@, synced@));
                assert(bank_rows_upto(l, rows.banks@, *p, role, now@, i + 1));
            }
            let n = n?;
            ap.banks = bump(ap.banks, n);
        }
        i = i + 1;
    }
    Ok(())
}

/// Writes an incoming question row where it is newer than the stored one
/// (the comparison, by role, follows).
pub const QUESTION_ROW_HEAD: &'static str = "INSERT INTO questions (id, bank_id, type, version, difficulty, score, status, stem_json, options_json,
                    answer_json, analysis_json, children_json, plain_text, created_at, updated_at, synced_at)
             VALUES (?1, ?2, ?3, ?4, ?5, ?6, ?7, ?8, ?9, ?10, ?11, ?12, ?13, ?14, ?15, ?16)
             ON CONFLICT(id) DO UPDATE SET bank_id = excluded.bank_id, type = excluded.type,
               version = excluded.version, difficulty = excluded.difficulty, score = excluded.score,
               status = excluded.status, stem_json = excluded.stem_json, options_json = excluded.options_json,
               answer_json = excluded.answer_json, analysis_json = excluded.analysis_json,
               children_json = excluded.children_json, plain_text = excluded.plain_text,
               updated_at = excluded.updated_at, synced_at = excluded.synced_at
             WHERE excluded.updated_at";

/// A gated write: the head, the role's comparison (`>` for the hub, `>=`
/// for a leaf) and the stored column it compares with.
pub open spec fn gated(head: Seq<char>, role: SyncRole, col: Seq<char>) -> Seq<char> {
    head + match role {
        SyncRole::Center => " > "@,
        SyncRole::Leaf => " >= "@,
    } + col
}

/// The sync time a written row gets: the apply time at the hub, the row's
/// own (or the apply time) at a leaf.
pub open spec fn stamp_of(role: SyncRole, row: JsonV, now: Seq<char>) -> Seq<char> {
    match role {
        SyncRole::Center => now,
        SyncRole::Leaf => match row.field_text("synced_at"@) {
            Some(b) => b,
            None => now,
        },
    }
}

/// The journal wrote the incoming question `row` with `sql`: its id, the
/// sync time `stamp` (where not empty), and for a question moved out of a
/// deleted bank the fallback bank and the cascade time.
pub open spec fn question_row_ran(log: Seq<Call>, sql: Seq<char>, row: JsonV, stamp: Seq<char>, rebank: Option<(Seq<char>, Seq<char>)>) -> bool {
    exists|f: QuestionFields, p: Seq<SqlValue>|
        #[trigger] row_params(p, f) && ran(log, sql, args_view(p)) && Some(f.id@) == nonempty_text(row, "id"@)
            && (stamp.len() > 0 ==> f.synced_at@ == stamp)
            && (rebank matches Some((b, t)) ==> oview(f.bank_id) == Some(b) && f.updated_at@ == t)
}

/// Where a question row moves: to the fallback bank, at the cascade time.
pub open spec fn rebank_of(p: MergePlan, id: Seq<char>, cascade_now: Seq<char>) -> Option<(Seq<char>, Seq<char>)> {
    if listed(p.rebanked@, id) && p.fallback is Some {
        Some((p.fallback->Some_0@, cascade_now))
    } else {
        None
    }
}

/// Every question row the plan writes was written as `question_row_ran` says.
pub open spec fn question_rows_ran(log: Seq<Call>, rows: Seq<(String, Json)>, p: MergePlan, role: SyncRole, now: Seq<char>, cascade_now: Seq<char>) -> bool {
    forall|j: int| 0 <= j < p.write_questions.len() && vmap(rows).contains_key(#[trigger] p.write_questions@[j]@) ==>
        question_row_ran(
            log,
            gated(QUESTION_ROW_HEAD@, role, "questions.updated_at"@),
            vmap(rows)[p.write_questions@[j]@]@,
            stamp_of(role, vmap(rows)[p.write_questions@[j]@]@, now),
            rebank_of(p, p.write_questions@[j]@, cascade_now),
        )
}

proof fn lemma_question_row_ran_grew(a: Seq<Call>, b: Seq<Call>, sql: Seq<char>, row: JsonV, stamp: Seq<char>, rebank: Option<(Seq<char>, Seq<char>)>)
    requires
        grew(a, b),
        question_row_ran(a, sql, row, stamp, rebank),
    ensures
        question_row_ran(b, sql, row, stamp, rebank),
{
    let (f, p) = choose|f: QuestionFields, p: Seq<SqlValue>|
        #[trigger] row_params(p, f) && ran(a, sql, args_view(p)) && Some(f.id@) == nonempty_text(row, "id"@)
            && (stamp.len() > 0 ==> f.synced_at@ == stamp)
            && (rebank matches Some((b, t)) ==> oview(f.bank_id) == Some(b) && f.updated_at@ == t);
    lemma_ran_grew(a, b, sql, args_view(p));
}
proof fn lemma_question_rows_ran_grew(a: Seq<Call>, b: Seq<Call>, rows: Seq<(String, Json)>, p: MergePlan, role: SyncRole, now: Seq<char>, cascade_now: Seq<char>)
    requires
        grew(a, b),
        question_rows_ran(a, rows, p, role, now, cascade_now),
    ensures
        question_rows_ran(b, rows, p, role, now, cascade_now),
{
    assert forall|j: int| 0 <= j < p.write_questions.len() && vmap(rows).contains_key(#[trigger] p.write_questions@[j]@) implies
        question_row_ran(
            b,
            gated(QUESTION_ROW_HEAD@, role, "questions.updated_at"@),
            vmap(rows)[p.write_questions@[j]@]@,
            stamp_of(role, vmap(rows)[p.write_questions@[j]@]@, now),
            rebank_of(p, p.write_questions@[j]@, cascade_now),
        ) by {
        lemma_question_row_ran_grew(
            a,
            b,
            gated(QUESTION_ROW_HEAD@, role, "questions.updated_at"@),
            vmap(rows)[p.write_questions@[j]@]@,
            stamp_of(role, vmap(rows)[p.write_questions@[j]@]@, now),
            rebank_of(p, p.write_questions@[j]@, cascade_now),
        );
    }
}

fn write_question_rows(
    db: &mut Db,
    rows: &BundleRows,
    p: &MergePlan,
    role: SyncRole,
    now: &str,
    cascade_now: &str,
    ap: &mut Applied,
) -> (r: Result<(), String>)
    ensures
        grew(old(db).log@, final(db).log@),
        final(ap).dropped_orphans == old(ap).dropped_orphans,
        r is Ok ==> question_rows_ran(final(db).log@, rows.questions@, *p, role, now@, cascade_now@),
{
    let sql = cat(
        gate_sql(QUESTION_ROW_HEAD, role).as_str(),
        "questions.updated_at",
    );
    assert(sql@ == gated(QUESTION_ROW_HEAD@, role, "questions.updated_at"@));
    proof {
        reveal_strlit("id");
        reveal_strlit("bank_id");
        reveal_strlit("updated_at");
        reveal_strlit("synced_at");
    }
    let mut i: usize = 0;
    while i < p.write_questions.len()
        invariant
            grew(old(db).log@, db.log@),
            ap.dropped_orphans == old(ap).dropped_orphans,
            0 <= i <= p.write_questions.len(),
            sql@ == gated(QUESTION_ROW_HEAD@, role, "questions.updated_at"@),
            "id"@.len() == 2 && "bank_id"@.len() == 7 && "updated_at"@.len() == 10 && "synced_at"@.len() == 9,
            forall|j: int| 0 <= j < i && vmap(rows.questions@).contains_key(#[trigger] p.write_questions@[j]@) ==>
                question_row_ran(
                    db.log@,
                    sql@,
                    vmap(rows.questions@)[p.write_questions@[j]@]@,
                    stamp_of(role, vmap(rows.questions@)[p.write_questions@[j]@]@, now@),
                    rebank_of(*p, p.write_questions@[j]@, cascade_now@),
                ),
        decreases p.write_questions.len() - i,
    {
        let id = &p.write_questions[i];
        let ghost l0 = db.log@;
        if let Some(q) = vget(&rows.questions, id) {
            let ghost row = q@;
            let ghost rb = rebank_of(*p, id@, cascade_now@);
            let ghost stamp = stamp_of(role, row, now@);
            let mut qq = q.clone_json();
            if qq.is_object() {
                let ghost q0 = qq@;
                if contains_str(&p.rebanked, id.as_str()) {
                    if let Some(fb) = &p.fallback {
                        qq.set("bank_id", Json::Str(fb.clone()));
                        qq.set("updated_at", Json::from_str(cascade_now));
                    }
                }
                assert(qq@.field_text("synced_at"@) == row.field_text("synced_at"@));
                assert(qq@.field("id"@) == row.field("id"@));
                let st = sync_stamp(role, qq.get_str("synced_at"), now);
                assert(st@ == stamp);
                qq.set("synced_at", Json::Str(st));
                assert(qq@.field("id"@) == row.field("id"@));
                assert(rb matches Some((b, t)) ==> qq@.field_text("bank_id"@) == Some(b) && qq@.field_text("updated_at"@) == Some(t));
            }
            let f = extract_fields(&qq)?;
            let prm = field_params(&f);
            let n = db_execute(db, sql.as_str(), &prm)?;
            proof {
                let l = db.log@;
                assert(is_run(l[l.len() - 1], sql@, args_view(prm@)));
                assert(ran(l, sql@, args_view(prm@)));
                assert(question_row_ran(l, sql@, row, stamp, rb));
                assert forall|j: int| 0 <= j < i && vmap(rows.questions@).contains_key(#[trigger] p.write_questions@[j]@) implies
                    question_row_ran(
                        l,
                        sql@,
                        vmap(rows.questions@)[p.write_questions@[j]@]@,
                        stamp_of(role, vmap(rows.questions@)[p.write_questions@[j]@]@, now@),
                        rebank_of(*p, p.write_questions@[j]@, cascade_now@),
                    ) by {
                    lemma_question_row_ran_grew(
                        l0,
                        l,
                        sql@,
                        vmap(rows.questions@)[p.write_questions@[j]@]@,
                        stamp_of(role, vmap(rows.questions@)[p.write_questions@[j]@]@, now@),
                        rebank_of(*p, p.write_questions@[j]@, cascade_now@),
                    );
                }
            }
            ap.questions = bump(ap.questions, n);
        }
        i = i + 1;
    }
    let ghost lw = db.log@;
    let mut i: usize = 0;
    while i < p.rebank_only.len()
        invariant
            grew(old(db).log@, db.log@),
            ap.dropped_orphans == old(ap).dropped_orphans,
            0 <= i <= p.rebank_only.len(),
            grew(lw, db.log@),
        decreases p.rebank_only.len() - i,
    {
        if let Some(fb) = &p.fallback {
            let n = db_execute(
                db,
                "UPDATE questions SET bank_id = ?1, updated_at = ?2, synced_at = ?3 WHERE id = ?4",
                &vec![SqlValue::Text(fb.clone()), text(cascade_now), text(now), SqlValue::Text(p.rebank_only[i].clone())],
            )?;
            ap.questions = bump(ap.questions, n);
        }
        i = i + 1;
    }
    proof {
        let l = db.log@;
        assert forall|j: int| 0 <= j < p.write_questions.len() && vmap(rows.questions@).contains_key(#[trigger] p.write_questions@[j]@) implies
            question_row_ran(
                l,
                gated(QUESTION_ROW_HEAD@, role, "questions.updated_at"@),
                vmap(rows.questions@)[p.write_questions@[j]@]@,
                stamp_of(role, vmap(rows.questions@)[p.write_questions@[j]@]@, now@),
                rebank_of(*p, p.write_questions@[j]@, cascade_now@),
            ) by {
            lemma_question_row_ran_grew(
                lw,
                l,
                sql@,
                vmap(rows.questions@)[p.write_questions@[j]@]@,
                stamp_of(role, vmap(rows.questions@)[p.write_questions@[j]@]@, now@),
                rebank_of(*p, p.write_questions@[j]@, cascade_now@),
            );
        }
    }
    Ok(())
}

/// The sync time a logged tombstone gets: the apply time at the hub, the
/// tombstone's own at a leaf.
pub open spec fn tomb_stamp(role: SyncRole, t: Tomb, now: Seq<char>) -> Seq<char> {
    match role {
        SyncRole::Center => now,
        SyncRole::Leaf => t.synced_at@,
    }
}

/// The tombstone `t` of the entity was logged with its deletion time and the
/// sync time `tomb_stamp` says, or the store was read to hold that deletion
/// time already.
pub open spec fn tomb_done(log: Seq<Call>, et: Seq<char>, id: Seq<char>, t: Tomb, role: SyncRole, now: Seq<char>) -> bool {
    ||| tomb_logged(log, et, id, t.deleted_at@, tomb_stamp(role, t, now))
    ||| exists|k: int| 0 <= k < log.len() && seen_call(#[trigger] log[k], et, id, t.deleted_at@)
}

/// Each of the first `n` entities `ids` that has an effective tombstone had it
/// logged, as `tomb_done` says.
pub open spec fn tombs_upto(log: Seq<Call>, inp: MergeInput, ids: Seq<String>, k: Kind, et: Seq<char>, role: SyncRole, now: Seq<char>, n: int) -> bool {
    forall|j: int| 0 <= j < n && j < ids.len() ==> (#[trigger] inp.eff_tomb(k, ids[j]@) matches Some(t)
        ==> tomb_done(log, et, ids[j]@, t, role, now))
}

/// Every deleted question and bank with an effective tombstone had it
/// logged, for one apply time.
pub open spec fn tombs_ran(log: Seq<Call>, inp: MergeInput, p: MergePlan, role: SyncRole) -> bool {
    exists|now: Seq<char>| #[trigger] tombs_upto(log, inp, p.dead_questions@, Kind::Question, "question"@, role, now, p.dead_questions.len() as int)
        && tombs_upto(log, inp, p.dead_banks@, Kind::Bank, "bank"@, role, now, p.dead_banks.len() as int)
}

proof fn lemma_tombs_grew(a: Seq<Call>, b: Seq<Call>, inp: MergeInput, ids: Seq<String>, k: Kind, et: Seq<char>, role: SyncRole, now: Seq<char>, n: int)
    requires
        grew(a, b),
        tombs_upto(a, inp, ids, k, et, role, now, n),
    ensures
        tombs_upto(b, inp, ids, k, et, role, now, n),
{
    assert forall|j: int| 0 <= j < n && j < ids.len() implies (#[trigger] inp.eff_tomb(k, ids[j]@) matches Some(t)
        ==> tomb_done(b, et, ids[j]@, t, role, now)) by {
        if let Some(t) = inp.eff_tomb(k, ids[j]@) {
            if tomb_logged(a, et, ids[j]@, t.deleted_at@, tomb_stamp(role, t, now)) {
                lemma_tomb_logged_grew(a, b, et, ids[j]@, t.deleted_at@, tomb_stamp(role, t, now));
            } else {
                let x = choose|x: int| 0 <= x < a.len() && seen_call(#[trigger] a[x], et, ids[j]@, t.deleted_at@);
                assert(b[x] == a[x]);
            }
        }
    }
}

fn log_tombs(db: &mut Db, inp: &MergeInput, ids: &Vec<String>, k: Kind, et: &str, role: SyncRole, now: &str, ap: &mut Applied) -> (r: Result<(), String>)
    ensures
        grew(old(db).log@, final(db).log@),
        final(ap).dropped_orphans == old(ap).dropped_orphans,
        r is Ok ==> tombs_upto(final(db).log@, *inp, ids@, k, et@, role, now@, ids.len() as int),
{
    let mut i: usize = 0;
    while i < ids.len()
        invariant
            grew(old(db).log@, db.log@),
            ap.dropped_orphans == old(ap).dropped_orphans,
            0 <= i <= ids.len(),
            tombs_upto(db.log@, *inp, ids@, k, et@, role, now@, i as int),
        decreases ids.len() - i,
    {
        let id = &ids[i];
        let ghost l0 = db.log@;
        if let Some(t) = inp.eff_tomb_of(k, id) {
            let seen = tomb_already_logged(db, et, id.as_str(), t.deleted_at.as_str());
            proof {
                lemma_tombs_grew(l0, db.log@, *inp, ids@, k, et@, role, now@, i as int);
            }
            if seen? {
                proof {
                    let l = db.log@;
                    assert(seen_call(l[l.len() - 1], et@, id@, t.deleted_at@));
                    assert(tomb_done(l, et@, ids@[i as int]@, *t, role, now@));
                }
                ap.skipped = bump(ap.skipped, 1);
            } else {
                let synced = sync_stamp(role, Some(t.synced_at.clone()), now);
                let b = match &t.bank_id {
                    Some(x) => Some(x.as_str()),
                    None => None,
                };
                let a = match &t.actor {
                    Some(x) => Some(x.as_str()),
                    None => None,
                };
                let ghost l1 = db.log@;
                let w = write_tombstone_tx(db, et, id.as_str(), b, t.deleted_at.as_str(), a, synced.as_str());
                proof {
                    lemma_tombs_grew(l1, db.log@, *inp, ids@, k, et@, role, now@, i as int);
                }
                w?;
                proof {
                    assert(synced@ == tomb_stamp(role, *t, now@));
                    assert(tomb_done(db.log@, et@, ids@[i as int]@, *t, role, now@));
                }
                ap.tombstones = bump(ap.tombstones, 1);
            }
        }
        i = i + 1;
    }
    Ok(())
}

fn delete_ids(db: &mut Db, sql: &str, ids: &Vec<String>) -> (r: Result<(), String>)
    ensures
        grew(old(db).log@, final(db).log@),
        r is Ok ==> ran_each(final(db).log@, sql@, ids@),
{
    let mut i: usize = 0;
    while i < ids.len()
        invariant
            grew(old(db).log@, db.log@),
            0 <= i <= ids.len(),
            forall|j: int| 0 <= j < i ==> ran(db.log@, sql@, seq![SqlV::Text(#[trigger] ids@[j]@)]),
        decreases ids.len() - i,
    {
        let args = vec![SqlValue::Text(ids[i].clone())];
        let ghost before = db.log@;
        proof {
            assert(args_view(args@) =~= seq![SqlV::Text(ids@[i as int]@)]);
        }
        db_execute(db, sql, &args)?;
        proof {
            assert forall|j: int| 0 <= j < i + 1 implies ran(db.log@, sql@, seq![SqlV::Text(#[trigger] ids@[j]@)]) by {
                if j < i {
                    lemma_ran_grew(before, db.log@, sql@, seq![SqlV::Text(ids@[j]@)]);
                } else {
                    assert(is_run(db.log@[before.len() as int], sql@, seq![SqlV::Text(ids@[j]@)]));
                }
            }
        }
        i = i + 1;
    }
    Ok(())
}

/// The deletions Phase B runs for a plan: each deleted question and bank
/// row, and each tombstone an edit beat.
pub open spec fn deletions_ran(log: Seq<Call>, p: MergePlan) -> bool {
    &&& ran_each(log, "DELETE FROM questions WHERE id = ?1"@, p.dead_questions@)
    &&& ran_each(log, "DELETE FROM banks WHERE id = ?1"@, p.dead_banks@)
    &&& ran_each(log, "DELETE FROM delete_log WHERE entity_type = 'bank' AND entity_id = ?1"@, p.drop_bank_tombs@)
    &&& ran_each(log, "DELETE FROM delete_log WHERE entity_type = 'question' AND entity_id = ?1"@, p.drop_question_tombs@)
}

proof fn lemma_deletions_grew(a: Seq<Call>, b: Seq<Call>, p: MergePlan)
    requires
        grew(a, b),
        deletions_ran(a, p),
    ensures
        deletions_ran(b, p),
{
    lemma_ran_each_grew(a, b, "DELETE FROM questions WHERE id = ?1"@, p.dead_questions@);
    lemma_ran_each_grew(a, b, "DELETE FROM banks WHERE id = ?1"@, p.dead_banks@);
    lemma_ran_each_grew(a, b, "DELETE FROM delete_log WHERE entity_type = 'bank' AND entity_id = ?1"@, p.drop_bank_tombs@);
    lemma_ran_each_grew(a, b, "DELETE FROM delete_log WHERE entity_type = 'question' AND entity_id = ?1"@, p.drop_question_tombs@);
}

/// Deletes what Phase A deleted (questions before banks), logs their
/// tombstones unless the same one is logged already, and drops the
/// tombstones an edit beat.
fn apply_deletions(db: &mut Db, inp: &MergeInput, p: &MergePlan, role: SyncRole, now: &str, ap: &mut Applied) -> (r: Result<(), String>)
    ensures
        grew(old(db).log@, final(db).log@),
        final(ap).dropped_orphans == old(ap).dropped_orphans,
        r is Ok ==> deletions_ran(final(db).log@, *p),
        r is Ok ==> tombs_upto(final(db).log@, *inp, p.dead_questions@, Kind::Question, "question"@, role, now@, p.dead_questions.len() as int),
        r is Ok ==> tombs_upto(final(db).log@, *inp, p.dead_banks@, Kind::Bank, "bank"@, role, now@, p.dead_banks.len() as int),
{
    let q_sql = "DELETE FROM questions WHERE id = ?1";
    let b_sql = "DELETE FROM banks WHERE id = ?1";
    let bt_sql = "DELETE FROM delete_log WHERE entity_type = 'bank' AND entity_id = ?1";
    let qt_sql = "DELETE FROM delete_log WHERE entity_type = 'question' AND entity_id = ?1";
    delete_ids(db, q_sql, &p.dead_questions)?;
    let ghost l1 = db.log@;
    delete_ids(db, b_sql, &p.dead_banks)?;
    let ghost l2 = db.log@;
    log_tombs(db, inp, &p.dead_questions, Kind::Question, "question", role, now, ap)?;
    let ghost lt = db.log@;
    log_tombs(db, inp, &p.dead_banks, Kind::Bank, "bank", role, now, ap)?;
    let ghost l3 = db.log@;
    proof {
        reveal_strlit("question");
        reveal_strlit("bank");
        lemma_tombs_grew(lt, l3, *inp, p.dead_questions@, Kind::Question, "question"@, role, now@, p.dead_questions.len() as int);
    }
    delete_ids(db, bt_sql, &p.drop_bank_tombs)?;
    let ghost l4 = db.log@;
    delete_ids(db, qt_sql, &p.drop_question_tombs)?;
    proof {
        let l5 = db.log@;
        lemma_ran_each_grew(l1, l5, q_sql@, p.dead_questions@);
        lemma_ran_each_grew(l2, l5, b_sql@, p.dead_banks@);
        lemma_ran_each_grew(l4, l5, bt_sql@, p.drop_bank_tombs@);
        lemma_tombs_grew(l3, l5, *inp, p.dead_questions@, Kind::Question, "question"@, role, now@, p.dead_questions.len() as int);
        lemma_tombs_grew(l3, l5, *inp, p.dead_banks@, Kind::Bank, "bank"@, role, now@, p.dead_banks.len() as int);
    }
    Ok(())
}

fn opt_i64(v: Option<&Json>) -> (r: Option<i64>)
    ensures
        match r {
            Some(n) => v matches Some(x) && x@.int_val() == Some(n as int),
            None => v matches Some(x) ==> x@.int_val() is None,
        },
{
    match v {
        Some(x) => x.as_i64(),
        None => None,
    }
}

/// `after` starts with `before`.
pub open spec fn keeps_prefix(before: Seq<Json>, after: Seq<Json>) -> bool {
    &&& before.len() <= after.len()
    &&& forall|k: int| 0 <= k < before.len() ==> #[trigger] after[k] == before[k]
}

/// What Phase B does with one incoming record, review state or dismissal.
#[derive(Debug, PartialEq, Eq, Structural)]
pub enum ItemStep {
    /// Its question does not survive (or is gone): dropped, counted as an orphan.
    Orphan,
    /// Skipped: a bad mode, or the stored row is at least as new.
    Skip,
    /// Dropped with a conflict: a bad grade or a bad card.
    Bad,
    /// Written.
    Apply,
}

/// Applying `k` single increments that stop short of overflow.
pub open spec fn bumps(n: int, k: nat) -> int
    decreases k,
{
    if k == 0 {
        n
    } else {
        let m = bumps(n, (k - 1) as nat);
        if m > i64::MAX - 1_000_000 {
            m
        } else {
            m + 1
        }
    }
}

/// The text of a member, empty when absent.
pub open spec fn text_member(r: JsonV, k: Seq<char>) -> Seq<char> {
    match r.field_text(k) {
        Some(t) => t,
        None => Seq::empty(),
    }
}

/// The step for an incoming record: its question must survive the merge and
/// be alive in the store; then a bad mode is skipped and a bad grade
/// dropped with a conflict.
pub open spec fn record_step_spec(r: JsonV, in_surv: bool, alive: bool) -> ItemStep {
    if !(in_surv && alive) {
        ItemStep::Orphan
    } else if !is_mode(text_member(r, "mode"@)) {
        ItemStep::Skip
    } else if !is_grade(text_member(r, "grade"@)) {
        ItemStep::Bad
    } else {
        ItemStep::Apply
    }
}

/// Decides what Phase B does with an incoming record.
pub fn record_step(r: &Json, in_surv: bool, alive: bool) -> (s: ItemStep)
    ensures
        s == record_step_spec(r@, in_surv, alive),
{
    if !(in_surv && alive) {
        return ItemStep::Orphan;
    }
    let mode = text_or_empty(r.get_str("mode"));
    if !is_mode_exec(mode.as_str()) {
        return ItemStep::Skip;
    }
    let grade = text_or_empty(r.get_str("grade"));
    if !is_grade_exec(grade.as_str()) {
        return ItemStep::Bad;
    }
    ItemStep::Apply
}

/// The record steps of the first `n` items, given for each whether its
/// question is alive in the store.
pub open spec fn rec_steps(items: Seq<Json>, surv: Seq<String>, alive: Seq<bool>, n: int) -> Seq<ItemStep>
    decreases n,
{
    if n <= 0 {
        seq![]
    } else {
        rec_steps(items, surv, alive, n - 1).push(
            record_step_spec(items[n - 1]@, listed(surv, text_member(items[n - 1]@, "question_id"@)), alive[n - 1]),
        )
    }
}

/// How many steps are orphans.
pub open spec fn orphans(st: Seq<ItemStep>) -> nat
    decreases st.len(),
{
    if st.len() == 0 {
        0
    } else {
        orphans(st.drop_last()) + if st.last() is Orphan { 1nat } else { 0nat }
    }
}

/// How many steps are skipped or dropped as bad.
pub open spec fn skips(st: Seq<ItemStep>) -> nat
    decreases st.len(),
{
    if st.len() == 0 {
        0
    } else {
        skips(st.drop_last()) + if st.last() is Skip || st.last() is Bad { 1nat } else { 0nat }
    }
}

/// The counters after the records of a bundle: orphans and skips counted as
/// `rec_steps` says, given for each record whether its question is alive.
pub open spec fn records_counted(bundle: JsonV, surv: Seq<String>, alive: Seq<bool>, before: Applied, after: Applied) -> bool {
    exists|items: Seq<Json>|
        #[trigger] views(items) == bundle_items(bundle, "records"@) && alive.len() == items.len()
            && after.dropped_orphans == bumps(before.dropped_orphans as int, orphans(rec_steps(items, surv, alive, items.len() as int)))
            && after.skipped == bumps(before.skipped as int, skips(rec_steps(items, surv, alive, items.len() as int)))
}

/// The items of an array member, none without one.
pub open spec fn bundle_items(bundle: JsonV, key: Seq<char>) -> Seq<JsonV> {
    match bundle.field(key) {
        Some(JsonV::Array(a)) => a,
        _ => seq![],
    }
}

proof fn lemma_rec_steps_prefix(items: Seq<Json>, surv: Seq<String>, a: Seq<bool>, b: Seq<bool>, n: int)
    requires
        0 <= n <= a.len(),
        n <= b.len(),
        forall|k: int| 0 <= k < n ==> a[k] == b[k],
    ensures
        rec_steps(items, surv, a, n) == rec_steps(items, surv, b, n),
    decreases n,
{
    if n > 0 {
        lemma_rec_steps_prefix(items, surv, a, b, n - 1);
    }
}

proof fn lemma_counts_push(st: Seq<ItemStep>, x: ItemStep)
    ensures
        orphans(st.push(x)) == orphans(st) + if x is Orphan { 1nat } else { 0nat },
        skips(st.push(x)) == skips(st) + if x is Skip || x is Bad { 1nat } else { 0nat },
{
    assert(st.push(x).drop_last() =~= st);
}

/// The counters after a list of steps: orphans and skips counted.
pub open spec fn steps_counted(st: Seq<ItemStep>, before: Applied, after: Applied) -> bool {
    &&& after.dropped_orphans == bumps(before.dropped_orphans as int, orphans(st))
    &&& after.skipped == bumps(before.skipped as int, skips(st))
}

/// One step per item, and an item is an orphan exactly when its question does
/// not survive the merge.
pub open spec fn orphan_iff_gone(items: Seq<JsonV>, surv: Seq<String>, st: Seq<ItemStep>) -> bool {
    &&& st.len() == items.len()
    &&& forall|k: int| 0 <= k < st.len() ==> ((#[trigger] st[k]) is Orphan <==> !listed(surv, text_member(items[k], "question_id"@)))
}

/// Answer records of the bundle: only for surviving, live questions; bad
/// modes are skipped, bad grades reported; a record whose id is stored keeps
/// the stored one (a different content is reported).
/// From `a` to `b`, every statement the journal ran is an answer record
/// whose correct flag (parameter 5) is `1` when its grade (parameter 4) is
/// `good` or `easy`, else `0`.
pub open spec fn records_graded(a: Seq<Call>, b: Seq<Call>) -> bool {
    &&& grew(a, b)
    &&& forall|i: int| a.len() <= i < b.len() ==> (#[trigger] b[i] matches Call::Run { args: x, .. } ==> {
        &&& x.len() == 10
        &&& x[3] matches SqlV::Text(g) && x[4] == SqlV::Int(if crate::practice::correct_spec(g) { 1 } else { 0 })
    })
}

proof fn lemma_records_graded_trans(a: Seq<Call>, b: Seq<Call>, c: Seq<Call>)
    requires
        records_graded(a, b),
        records_graded(b, c) || no_writes(b, c),
    ensures
        records_graded(a, c),
{
    assert forall|i: int| a.len() <= i < c.len() implies (#[trigger] c[i] matches Call::Run { args: x, .. } ==> {
        &&& x.len() == 10
        &&& x[3] matches SqlV::Text(g) && x[4] == SqlV::Int(if crate::practice::correct_spec(g) { 1 } else { 0 })
    }) by {
        if i < b.len() {
            assert(c[i] == b[i]);
        } else if no_writes(b, c) {
            assert(!(c[i] is Run));
        }
    }
}

fn apply_records(db: &mut Db, bundle: &Json, p: &MergePlan, role: SyncRole, now: &str, conflicts: &mut Vec<Json>, ap: &mut Applied) -> (r: Result<(), String>)
    ensures
        grew(old(db).log@, final(db).log@),
        r is Ok ==> all_have_text(bundle@, "records"@, "id"@) && all_have_text(bundle@, "records"@, "question_id"@),
        r is Ok ==> exists|alive: Seq<bool>| #[trigger] records_counted(bundle@, p.surv_questions@, alive, *old(ap), *final(ap)),
        writes_for(old(db).log@, final(db).log@, p.surv_questions@, 1),
        records_graded(old(db).log@, final(db).log@),
        keeps_prefix(old(conflicts)@, final(conflicts)@),
{
    let ghost c0 = conflicts@;
    let recs = bundle_arr(bundle, "records");
    let ghost o0 = ap.dropped_orphans as int;
    let ghost s0 = ap.skipped as int;
    let ghost mut al: Seq<bool> = seq![];
    let mut i: usize = 0;
    while i < recs.len()
        invariant
            grew(old(db).log@, db.log@),
            writes_for(old(db).log@, db.log@, p.surv_questions@, 1),
            records_graded(old(db).log@, db.log@),
            keeps_prefix(c0, conflicts@),
            c0 == old(conflicts)@,
            al.len() == i,
            o0 == old(ap).dropped_orphans,
            s0 == old(ap).skipped,
            ap.dropped_orphans == bumps(o0, orphans(rec_steps(recs@, p.surv_questions@, al, i as int))),
            ap.skipped == bumps(s0, skips(rec_steps(recs@, p.surv_questions@, al, i as int))),
            0 <= i <= recs.len(),
            bundle@.field("records"@) matches Some(JsonV::Array(a)) ==> recs@.map_values(|x: Json| x@) == a,
            forall|j: int| 0 <= j < i ==> (#[trigger] recs@[j])@.field_text("id"@) is Some,
            forall|j: int| 0 <= j < i ==> (#[trigger] recs@[j])@.field_text("question_id"@) is Some,
        decreases recs.len() - i,
    {
        let r = &recs[i];
        i = i + 1;
        let rid = match r.get_str("id") {
            Some(x) => x,
            None => {
                return Err("sync bundle: record missing id".to_owned());
            },
        };
        let qid = match r.get_str("question_id") {
            Some(x) => x,
            None => {
                return Err("sync bundle: record missing question_id".to_owned());
            },
        };
        let in_surv = contains_str(&p.surv_questions, qid.as_str());
        let ghost l1 = db.log@;
        let alive_r = if in_surv {
            question_alive(db, qid.as_str())
        } else {
            Ok(false)
        };
        proof {
            lemma_no_writes_for(l1, db.log@, p.surv_questions@, 1);
            lemma_writes_for_trans(old(db).log@, l1, db.log@, p.surv_questions@, 1);
            lemma_records_graded_trans(old(db).log@, l1, db.log@);
        }
        let alive = alive_r?;
        let ghost prev = al;
        proof {
            al = al.push(alive);
            assert(rec_steps(recs@, p.surv_questions@, al, (i - 1) as int) == rec_steps(recs@, p.surv_questions@, prev, (i - 1) as int))
                by {
                lemma_rec_steps_prefix(recs@, p.surv_questions@, prev, al, (i - 1) as int);
            }
            assert(rec_steps(recs@, p.surv_questions@, al, i as int).drop_last() =~= rec_steps(recs@, p.surv_questions@, al, (i - 1) as int));
        }
        let step = record_step(r, in_surv, alive);
        let mode = text_or_empty(r.get_str("mode"));
        let grade = text_or_empty(r.get_str("grade"));
        match step {
            ItemStep::Orphan => {
                ap.dropped_orphans = bump(ap.dropped_orphans, 1);
                continue;
            },
            ItemStep::Skip => {
                ap.skipped = bump(ap.skipped, 1);
                continue;
            },
            ItemStep::Bad => {
                conflicts.push(conflict_entry("record", rid.as_str(), pair("stored", Json::from_str("kept")), pair("grade", Json::Str(grade)), "bad-grade-dropped"));
                ap.skipped = bump(ap.skipped, 1);
                continue;
            },
            ItemStep::Apply => {},
        }
        let answered = norm_incoming_time(r, "answered_at")?;
        let correct = correct_of(grade.as_str());
        let elapsed = opt_i64(r.get("elapsed_ms"));
        let detail = r.get_str("detail_json");
        let flog = r.get_str("fsrs_log");
        let synced = sync_stamp(role, r.get_str("synced_at"), now);
        let ghost l2 = db.log@;
        let stored_r = stored_record(db, rid.as_str());
        proof {
            lemma_no_writes_for(l2, db.log@, p.surv_questions@, 1);
            lemma_writes_for_trans(old(db).log@, l2, db.log@, p.surv_questions@, 1);
            lemma_records_graded_trans(old(db).log@, l2, db.log@);
        }
        match stored_r? {
            Some(stored) => {
                let d = match &detail {
                    Some(x) => Some(x.as_str()),
                    None => None,
                };
                let f = match &flog {
                    Some(x) => Some(x.as_str()),
                    None => None,
                };
                if !record_content_eq(&stored, qid.as_str(), mode.as_str(), grade.as_str(), correct, answered.as_str(), elapsed, d, f) {
                    conflicts.push(conflict_entry("record", rid.as_str(), pair("stored", Json::from_str("kept")), pair("bundle", Json::from_str("dropped")), "same-id-different-content"));
                }
            },
            None => {
                let ghost qv = qid@;
                let ghost gv = grade@;
                let args = vec![
                        SqlValue::Text(rid),
                        SqlValue::Text(qid),
                        SqlValue::Text(mode),
                        SqlValue::Text(grade),
                        SqlValue::Int(correct),
                        SqlValue::Text(answered),
                        match elapsed {
                            Some(e) => SqlValue::Int(e),
                            None => SqlValue::Null,
                        },
                        opt_text(&detail),
                        opt_text(&flog),
                        SqlValue::Text(synced),
                    ];
                assert(args_view(args@)[1] == SqlV::Text(qv) && args_view(args@).len() == 10);
                assert(names_listed(args_view(args@), 1, p.surv_questions@));
                let ghost l3 = db.log@;
                let n_r = db_execute(
                    db,
                    "INSERT OR IGNORE INTO practice_records (id, question_id, mode, grade, correct, answered_at, elapsed_ms, detail_json, fsrs_log, synced_at)
                     VALUES (?1, ?2, ?3, ?4, ?5, ?6, ?7, ?8, ?9, ?10)",
                    &args,
                );
                proof {
                    let l = db.log@;
                    assert(writes_for(l3, l, p.surv_questions@, 1)) by {
                        assert forall|k: int| l3.len() <= k < l.len() implies (#[trigger] l[k] matches Call::Run { args: x, .. } ==> names_listed(x, 1, p.surv_questions@)) by {
                            assert(k == l3.len());
                        }
                    }
                    lemma_writes_for_trans(old(db).log@, l3, l, p.surv_questions@, 1);
                    assert(records_graded(l3, l)) by {
                        assert forall|k: int| l3.len() <= k < l.len() implies (#[trigger] l[k] matches Call::Run { args: x, .. } ==> {
                            &&& x.len() == 10
                            &&& x[3] matches SqlV::Text(g) && x[4] == SqlV::Int(if crate::practice::correct_spec(g) { 1 } else { 0 })
                        }) by {
                            assert(k == l3.len());
                            assert(args_view(args@)[3] == SqlV::Text(gv));
                        }
                    }
                    lemma_records_graded_trans(old(db).log@, l3, l);
                }
                let n = n_r?;
                ap.records = bump(ap.records, n);
            },
        }
    }
    proof {
        lemma_items_have(bundle@, "records"@, recs@, "id"@);
        lemma_items_have(bundle@, "records"@, recs@, "question_id"@);
        assert(views(recs@) =~= bundle_items(bundle@, "records"@));
        assert(records_counted(bundle@, p.surv_questions@, al, *old(ap), *ap));
    }
    Ok(())
}

/// The text of a number member.
pub open spec fn num_member_of(s: JsonV, k: Seq<char>) -> Option<Seq<char>> {
    match s.field(k) {
        Some(JsonV::Num(t)) => Some(t),
        _ => None,
    }
}

/// The value of an integer member within `i64`.
pub open spec fn int_member_of(s: JsonV, k: Seq<char>) -> Option<int> {
    match s.field(k) {
        Some(v) => v.int_val(),
        None => None,
    }
}

/// A review state of a bundle carries every member of a card.
pub open spec fn card_members_ok(s: JsonV) -> bool {
    &&& num_member_of(s, "stability"@) is Some
    &&& num_member_of(s, "difficulty"@) is Some
    &&& int_member_of(s, "reps"@) is Some
    &&& int_member_of(s, "lapses"@) is Some
    &&& int_member_of(s, "state"@) is Some
    &&& int_member_of(s, "learning_steps"@) is Some
    &&& num_member_of(s, "scheduled_days"@) is Some
    &&& s.field_text("due_at"@) is Some
}

pub open spec fn opt_text_is(o: Option<String>, v: Option<Seq<char>>) -> bool {
    match o {
        Some(x) => v == Some(x@),
        None => v is None,
    }
}

fn member<'a>(s: &'a Json, k: &str) -> (r: Result<&'a Json, String>)
    ensures
        match r {
            Ok(v) => s@.field(k@) == Some(v@),
            Err(_) => s@.field(k@) is None,
        },
{
    match s.get(k) {
        Some(v) => Ok(v),
        None => Err(cat("sync bundle: review_state missing ", k)),
    }
}

fn num_member(s: &Json, k: &str) -> (r: Result<String, String>)
    ensures
        match r {
            Ok(t) => num_member_of(s@, k@) == Some(t@),
            Err(_) => num_member_of(s@, k@) is None,
        },
{
    match member(s, k)? {
        Json::Num(t) => Ok(t.clone()),
        _ => Err(cat("sync bundle: bad review_state.", k)),
    }
}

fn int_member(s: &Json, k: &str) -> (r: Result<i64, String>)
    ensures
        match r {
            Ok(n) => int_member_of(s@, k@) == Some(n as int),
            Err(_) => int_member_of(s@, k@) is None,
        },
{
    match member(s, k)?.as_i64() {
        Some(n) => Ok(n),
        None => Err(cat("sync bundle: bad review_state.", k)),
    }
}

/// The card a bundle's review state describes; a missing or mistyped member
/// is an error.
pub fn card_of(s: &Json) -> (r: Result<FsrsCard, String>)
    ensures
        r is Ok <==> card_members_ok(s@),
        r matches Ok(c) ==> {
            &&& num_member_of(s@, "stability"@) == Some(c.stability@)
            &&& num_member_of(s@, "difficulty"@) == Some(c.difficulty@)
            &&& int_member_of(s@, "reps"@) == Some(c.reps as int)
            &&& int_member_of(s@, "lapses"@) == Some(c.lapses as int)
            &&& int_member_of(s@, "state"@) == Some(c.state as int)
            &&& int_member_of(s@, "learning_steps"@) == Some(c.learning_steps as int)
            &&& num_member_of(s@, "scheduled_days"@) == Some(c.scheduled_days@)
            &&& s@.field_text("due_at"@) == Some(c.due_at@)
            &&& opt_text_is(c.last_reviewed_at, s@.field_text("last_reviewed_at"@))
            &&& opt_text_is(c.last_result, s@.field_text("last_result"@))
        },
{
    let stability = num_member(s, "stability")?;
    let difficulty = num_member(s, "difficulty")?;
    let reps = int_member(s, "reps")?;
    let lapses = int_member(s, "lapses")?;
    let state = int_member(s, "state")?;
    let learning_steps = int_member(s, "learning_steps")?;
    let scheduled_days = num_member(s, "scheduled_days")?;
    let due_at = match member(s, "due_at")?.as_str() {
        Some(t) => t.to_owned(),
        None => {
            return Err("sync bundle: bad review_state.due_at".to_owned());
        },
    };
    Ok(
        FsrsCard {
            stability,
            difficulty,
            reps,
            lapses,
            state,
            learning_steps,
            scheduled_days,
            due_at,
            last_reviewed_at: s.get_str("last_reviewed_at"),
            last_result: s.get_str("last_result"),
        },
    )
}

fn stored_time(db: &mut Db, sql: &str, key: &str) -> (r: Result<Option<String>, String>)
    ensures
        grew(old(db).log@, final(db).log@),
        no_writes(old(db).log@, final(db).log@),
{
    query_opt_text(db, sql, &vec![text(key)])
}

fn apply_review_states(db: &mut Db, bundle: &Json, p: &MergePlan, role: SyncRole, conflicts: &mut Vec<Json>, ap: &mut Applied) -> (r: Result<(), String>)
    ensures
        grew(old(db).log@, final(db).log@),
        r is Ok ==> all_have_text(bundle@, "review_state"@, "question_id"@),
        r is Ok ==> exists|st: Seq<ItemStep>|
            orphan_iff_gone(bundle_items(bundle@, "review_state"@), p.surv_questions@, st) && #[trigger] steps_counted(st, *old(ap), *final(ap)),
        keeps_prefix(old(conflicts)@, final(conflicts)@),
        writes_for(old(db).log@, final(db).log@, p.surv_questions@, 0),
{
    let ghost c0 = conflicts@;
    let items = bundle_arr(bundle, "review_state");
    let ghost mut st: Seq<ItemStep> = seq![];
    let mut i: usize = 0;
    while i < items.len()
        invariant
            grew(old(db).log@, db.log@),
            writes_for(old(db).log@, db.log@, p.surv_questions@, 0),
            0 <= i <= items.len(),
            st.len() == i,
            keeps_prefix(c0, conflicts@),
            c0 == old(conflicts)@,
            steps_counted(st, *old(ap), *ap),
            forall|k: int| 0 <= k < i ==> ((#[trigger] st[k]) is Orphan <==> !listed(p.surv_questions@, text_member(items@[k]@, "question_id"@))),
            bundle@.field("review_state"@) matches Some(JsonV::Array(a)) ==> items@.map_values(|x: Json| x@) == a,
            forall|j: int| 0 <= j < i ==> (#[trigger] items@[j])@.field_text("question_id"@) is Some,
        decreases items.len() - i,
    {
        let s = &items[i];
        i = i + 1;
        let qid = match s.get_str("question_id") {
            Some(x) => x,
            None => {
                return Err("sync bundle: review_state missing question_id".to_owned());
            },
        };
        let ghost k = (i - 1) as int;
        if !contains_str(&p.surv_questions, qid.as_str()) {
            proof {
                lemma_counts_push(st, ItemStep::Orphan);
                st = st.push(ItemStep::Orphan);
            }
            ap.dropped_orphans = bump(ap.dropped_orphans, 1);
            continue;
        }
        let updated = norm_incoming_time(s, "updated_at")?;
        let ghost lb = db.log@;
        let existing = stored_time(db, "SELECT updated_at FROM review_state WHERE question_id = ?1", qid.as_str());
        proof {
            lemma_no_writes_for(lb, db.log@, p.surv_questions@, 0);
            lemma_writes_for_trans(old(db).log@, lb, db.log@, p.surv_questions@, 0);
        }
        let existing = existing?;
        let cur = match &existing {
            Some(x) => Some(x.as_str()),
            None => None,
        };
        if !lww_take(updated.as_str(), cur, role) {
            proof {
                lemma_counts_push(st, ItemStep::Skip);
                st = st.push(ItemStep::Skip);
            }
            ap.skipped = bump(ap.skipped, 1);
            continue;
        }
        let card = card_of(s)?;
        if validate_fsrs_card(&card).is_err() {
            conflicts.push(conflict_entry("review_state", qid.as_str(), pair("stored", Json::from_str("kept")), pair("bundle", Json::from_str("dropped")), "bad-card-dropped"));
            proof {
                lemma_counts_push(st, ItemStep::Bad);
                st = st.push(ItemStep::Bad);
            }
            ap.skipped = bump(ap.skipped, 1);
            continue;
        }
        proof {
            lemma_counts_push(st, ItemStep::Apply);
            st = st.push(ItemStep::Apply);
        }
        let ghost lw = db.log@;
        let ghost qv = qid@;
        let w = db_execute(
            db,
            "INSERT INTO review_state (question_id, due_at, stability, difficulty, reps, lapses, state, learning_steps, scheduled_days, last_result, last_reviewed_at, updated_at)
             VALUES (?1, ?2, ?3, ?4, ?5, ?6, ?7, ?8, ?9, ?10, ?11, ?12)
             ON CONFLICT(question_id) DO UPDATE SET due_at = excluded.due_at, stability = excluded.stability,
               difficulty = excluded.difficulty, reps = excluded.reps, lapses = excluded.lapses, state = excluded.state,
               learning_steps = excluded.learning_steps, scheduled_days = excluded.scheduled_days,
               last_result = excluded.last_result, last_reviewed_at = excluded.last_reviewed_at, updated_at = excluded.updated_at",
            &vec![
                SqlValue::Text(qid),
                SqlValue::Text(card.due_at),
                SqlValue::Text(card.stability),
                SqlValue::Text(card.difficulty),
                SqlValue::Int(card.reps),
                SqlValue::Int(card.lapses),
                SqlValue::Int(card.state),
                SqlValue::Int(card.learning_steps),
                SqlValue::Text(card.scheduled_days),
                opt_text(&card.last_result),
                opt_text(&card.last_reviewed_at),
                SqlValue::Text(updated),
            ],
        );
        proof {
            let l = db.log@;
            assert(names_listed(l.last()->Run_args, 0, p.surv_questions@));
            assert(writes_for(lw, l, p.surv_questions@, 0));
            lemma_writes_for_trans(old(db).log@, lw, l, p.surv_questions@, 0);
        }
        w?;
        ap.review_state = bump(ap.review_state, 1);
    }
    proof {
        lemma_items_have(bundle@, "review_state"@, items@, "question_id"@);
        assert(views(items@) =~= bundle_items(bundle@, "review_state"@));
        assert(orphan_iff_gone(bundle_items(bundle@, "review_state"@), p.surv_questions@, st)) by {
            assert forall|k: int| 0 <= k < st.len() implies ((#[trigger] st[k]) is Orphan <==> !listed(p.surv_questions@, text_member(bundle_items(bundle@, "review_state"@)[k], "question_id"@))) by {
                assert(views(items@)[k] == items@[k]@);
            }
        }
        assert(steps_counted(st, *old(ap), *ap));
    }
    Ok(())
}

fn apply_dismissals(db: &mut Db, bundle: &Json, p: &MergePlan, role: SyncRole, now: &str, ap: &mut Applied) -> (r: Result<(), String>)
    ensures
        grew(old(db).log@, final(db).log@),
        r is Ok ==> all_have_text(bundle@, "wrong_dismiss"@, "question_id"@),
        r is Ok ==> exists|st: Seq<ItemStep>|
            orphan_iff_gone(bundle_items(bundle@, "wrong_dismiss"@), p.surv_questions@, st) && #[trigger] steps_counted(st, *old(ap), *final(ap)),
        writes_for(old(db).log@, final(db).log@, p.surv_questions@, 0),
{
    let items = bundle_arr(bundle, "wrong_dismiss");
    let ghost mut st: Seq<ItemStep> = seq![];
    let mut i: usize = 0;
    while i < items.len()
        invariant
            grew(old(db).log@, db.log@),
            writes_for(old(db).log@, db.log@, p.surv_questions@, 0),
            0 <= i <= items.len(),
            st.len() == i,
            steps_counted(st, *old(ap), *ap),
            forall|k: int| 0 <= k < i ==> ((#[trigger] st[k]) is Orphan <==> !listed(p.surv_questions@, text_member(items@[k]@, "question_id"@))),
            bundle@.field("wrong_dismiss"@) matches Some(JsonV::Array(a)) ==> items@.map_values(|x: Json| x@) == a,
            forall|j: int| 0 <= j < i ==> (#[trigger] items@[j])@.field_text("question_id"@) is Some,
        decreases items.len() - i,
    {
        let d = &items[i];
        i = i + 1;
        let qid = match d.get_str("question_id") {
            Some(x) => x,
            None => {
                return Err("sync bundle: dismiss missing question_id".to_owned());
            },
        };
        if !contains_str(&p.surv_questions, qid.as_str()) {
            proof {
                lemma_counts_push(st, ItemStep::Orphan);
                st = st.push(ItemStep::Orphan);
            }
            ap.dropped_orphans = bump(ap.dropped_orphans, 1);
            continue;
        }
        let updated = norm_incoming_time(d, "updated_at")?;
        let ghost lb = db.log@;
        let existing = stored_time(db, "SELECT updated_at FROM wrong_dismiss WHERE question_id = ?1", qid.as_str());
        proof {
            lemma_no_writes_for(lb, db.log@, p.surv_questions@, 0);
            lemma_writes_for_trans(old(db).log@, lb, db.log@, p.surv_questions@, 0);
        }
        let existing = existing?;
        let cur = match &existing {
            Some(x) => Some(x.as_str()),
            None => None,
        };
        if !lww_take(updated.as_str(), cur, role) {
            proof {
                lemma_counts_push(st, ItemStep::Skip);
                st = st.push(ItemStep::Skip);
            }
            ap.skipped = bump(ap.skipped, 1);
            continue;
        }
        proof {
            lemma_counts_push(st, ItemStep::Apply);
            st = st.push(ItemStep::Apply);
        }
        let is_d = match opt_i64(d.get("is_dismissed")) {
            Some(n) => n,
            None => 1,
        };
        let synced = sync_stamp(role, d.get_str("synced_at"), now);
        let ghost lw = db.log@;
        let w = db_execute(
            db,
            "INSERT INTO wrong_dismiss (question_id, is_dismissed, updated_at, dismissed_at, synced_at)
             VALUES (?1, ?2, ?3, ?4, ?5)
             ON CONFLICT(question_id) DO UPDATE SET is_dismissed = excluded.is_dismissed,
               updated_at = excluded.updated_at, dismissed_at = excluded.dismissed_at, synced_at = excluded.synced_at",
            &vec![SqlValue::Text(qid), SqlValue::Int(is_d), SqlValue::Text(updated), opt_text(&d.get_str("dismissed_at")), SqlValue::Text(synced)],
        );
        proof {
            let l = db.log@;
            assert(names_listed(l.last()->Run_args, 0, p.surv_questions@));
            lemma_writes_for_trans(old(db).log@, lw, l, p.surv_questions@, 0);
        }
        w?;
        ap.wrong_dismiss = bump(ap.wrong_dismiss, 1);
    }
    proof {
        lemma_items_have(bundle@, "wrong_dismiss"@, items@, "question_id"@);
        assert(views(items@) =~= bundle_items(bundle@, "wrong_dismiss"@));
        assert(orphan_iff_gone(bundle_items(bundle@, "wrong_dismiss"@), p.surv_questions@, st)) by {
            assert forall|k: int| 0 <= k < st.len() implies ((#[trigger] st[k]) is Orphan <==> !listed(p.surv_questions@, text_member(bundle_items(bundle@, "wrong_dismiss"@)[k], "question_id"@))) by {
                assert(views(items@)[k] == items@[k]@);
            }
        }
        assert(steps_counted(st, *old(ap), *ap));
    }
    Ok(())
}

/// One step per setting: never an orphan or a bad item, and a blank key is
/// always skipped.
pub open spec fn settings_steps_ok(items: Seq<JsonV>, st: Seq<ItemStep>) -> bool {
    &&& st.len() == items.len()
    &&& forall|k: int| 0 <= k < st.len() ==> ((#[trigger] st[k]) is Skip || st[k] is Apply) && (blank(text_member(items[k], "key"@)) ==> st[k] is Skip)
}

/// From `a` to `b`, every statement the journal ran wrote a setting under a
/// key that is not blank, with a value that is JSON text.
pub open spec fn settings_writes_ok(a: Seq<Call>, b: Seq<Call>) -> bool {
    &&& grew(a, b)
    &&& forall|i: int| a.len() <= i < b.len() ==> (#[trigger] b[i] matches Call::Run { args: x, .. } ==> {
        &&& x.len() == 3
        &&& x[0] matches SqlV::Text(k) && !blank(k)
        &&& x[1] matches SqlV::Text(v) && json_parsed(v) is Some
    })
}

proof fn lemma_settings_writes_trans(a: Seq<Call>, b: Seq<Call>, c: Seq<Call>)
    requires
        settings_writes_ok(a, b),
        settings_writes_ok(b, c) || no_writes(b, c),
    ensures
        settings_writes_ok(a, c),
{
    assert forall|i: int| a.len() <= i < c.len() implies (#[trigger] c[i] matches Call::Run { args: x, .. } ==> {
        &&& x.len() == 3
        &&& x[0] matches SqlV::Text(k) && !blank(k)
        &&& x[1] matches SqlV::Text(v) && json_parsed(v) is Some
    }) by {
        if i < b.len() {
            assert(c[i] == b[i]);
        } else if no_writes(b, c) {
            assert(!(c[i] is Run));
        }
    }
}

fn apply_settings(db: &mut Db, bundle: &Json, role: SyncRole, ap: &mut Applied) -> (r: Result<(), String>)
    ensures
        grew(old(db).log@, final(db).log@),
        final(ap).dropped_orphans == old(ap).dropped_orphans,
        r is Ok ==> all_have_text(bundle@, "settings"@, "key"@),
        r is Ok ==> exists|st: Seq<ItemStep>| settings_steps_ok(bundle_items(bundle@, "settings"@), st) && #[trigger] steps_counted(st, *old(ap), *final(ap)),
        settings_writes_ok(old(db).log@, final(db).log@),
{
    let items = bundle_arr(bundle, "settings");
    let ghost mut sts: Seq<ItemStep> = seq![];
    let mut i: usize = 0;
    while i < items.len()
        invariant
            grew(old(db).log@, db.log@),
            settings_writes_ok(old(db).log@, db.log@),
            ap.dropped_orphans == old(ap).dropped_orphans,
            0 <= i <= items.len(),
            sts.len() == i,
            steps_counted(sts, *old(ap), *ap),
            forall|k: int| 0 <= k < i ==> ((#[trigger] sts[k]) is Skip || sts[k] is Apply) && (blank(text_member(items@[k]@, "key"@)) ==> sts[k] is Skip),
            bundle@.field("settings"@) matches Some(JsonV::Array(a)) ==> items@.map_values(|x: Json| x@) == a,
            forall|j: int| 0 <= j < i ==> (#[trigger] items@[j])@.field_text("key"@) is Some,
        decreases items.len() - i,
    {
        let st = &items[i];
        i = i + 1;
        let key = match st.get_str("key") {
            Some(x) => x,
            None => {
                return Err("sync bundle: setting missing key".to_owned());
            },
        };
        if is_blank(key.as_str()) {
            proof {
                lemma_counts_push(sts, ItemStep::Skip);
                sts = sts.push(ItemStep::Skip);
            }
            ap.skipped = bump(ap.skipped, 1);
            continue;
        }
        let val = match st.get_str("value_json") {
            Some(x) => x,
            None => {
                return Err("sync bundle: setting missing value".to_owned());
            },
        };
        let parsed = Json::parse(val.as_str());
        if parsed.is_none() {
            return Err(cat("sync bundle: bad setting json: ", key.as_str()));
        }
        let updated = norm_incoming_time(st, "updated_at")?;
        let ghost lb = db.log@;
        let existing = stored_time(db, "SELECT updated_at FROM app_settings WHERE key = ?1", key.as_str());
        proof {
            lemma_settings_writes_trans(old(db).log@, lb, db.log@);
        }
        let existing = existing?;
        let cur = match &existing {
            Some(x) => Some(x.as_str()),
            None => None,
        };
        if !lww_take(updated.as_str(), cur, role) {
            proof {
                lemma_counts_push(sts, ItemStep::Skip);
                sts = sts.push(ItemStep::Skip);
            }
            ap.skipped = bump(ap.skipped, 1);
            continue;
        }
        proof {
            lemma_counts_push(sts, ItemStep::Apply);
            sts = sts.push(ItemStep::Apply);
        }
        let ghost lw = db.log@;
        let w = db_execute(
            db,
            "INSERT INTO app_settings (key, value_json, updated_at) VALUES (?1, ?2, ?3)
             ON CONFLICT(key) DO UPDATE SET value_json = excluded.value_json, updated_at = excluded.updated_at",
            &vec![SqlValue::Text(key), SqlValue::Text(val), SqlValue::Text(updated)],
        );
        proof {
            assert(settings_writes_ok(lw, db.log@));
            lemma_settings_writes_trans(old(db).log@, lw, db.log@);
        }
        w?;
        ap.settings = bump(ap.settings, 1);
    }
    proof {
        lemma_items_have(bundle@, "settings"@, items@, "key"@);
        assert(views(items@) =~= bundle_items(bundle@, "settings"@));
        assert(settings_steps_ok(bundle_items(bundle@, "settings"@), sts)) by {
            assert forall|k: int| 0 <= k < sts.len() implies ((#[trigger] sts[k]) is Skip || sts[k] is Apply) && (blank(text_member(bundle_items(bundle@, "settings"@)[k], "key"@)) ==> sts[k] is Skip) by {
                assert(views(items@)[k] == items@[k]@);
            }
        }
        assert(steps_counted(sts, *old(ap), *ap));
    }
    Ok(())
}

fn phase_b(
    db: &mut Db,
    bundle: &Json,
    rows: &BundleRows,
    inp: &MergeInput,
    p: &MergePlan,
    role: SyncRole,
    cascade_now: &str,
    conflicts: &mut Vec<Json>,
) -> (r: Result<Applied, String>)
    ensures
        grew(old(db).log@, final(db).log@),
        r is Ok ==> deletions_ran(final(db).log@, *p),
        r is Ok ==> exists|now: Seq<char>| #[trigger] question_rows_ran(final(db).log@, rows.questions@, *p, role, now, cascade_now@)
            && bank_rows_ran(final(db).log@, rows.banks@, *p, role, now),
        r is Ok ==> records_stretch(old(db).log@, final(db).log@, p.surv_questions@),
        r is Ok ==> cards_stretch(old(db).log@, final(db).log@, p.surv_questions@),
        r is Ok ==> tombs_ran(final(db).log@, *inp, *p, role),
        r is Ok ==> settings_stretch(old(db).log@, final(db).log@),
        r is Ok ==> {
            &&& all_have_text(bundle@, "records"@, "id"@)
            &&& all_have_text(bundle@, "records"@, "question_id"@)
            &&& all_have_text(bundle@, "review_state"@, "question_id"@)
            &&& all_have_text(bundle@, "wrong_dismiss"@, "question_id"@)
            &&& all_have_text(bundle@, "settings"@, "key"@)
        },
        keeps_prefix(old(conflicts)@, final(conflicts)@),
        r matches Ok(ap) ==> orphans_reported(bundle@, p.surv_questions@, ap.dropped_orphans as int),
{
    let now = now_iso()?;
    let mut ap = Applied {
        banks: 0,
        questions: 0,
        records: 0,
        review_state: 0,
        wrong_dismiss: 0,
        settings: 0,
        tombstones: 0,
        skipped: 0,
        dropped_orphans: 0,
    };
    write_bank_rows(db, rows, p, role, now.as_str(), &mut ap)?;
    let ghost lbk = db.log@;
    write_question_rows(db, rows, p, role, now.as_str(), cascade_now, &mut ap)?;
    let ghost lq = db.log@;
    apply_deletions(db, inp, p, role, now.as_str(), &mut ap)?;
    let ghost ld = db.log@;
    let ghost ap1 = ap;
    apply_records(db, bundle, p, role, now.as_str(), conflicts, &mut ap)?;
    let ghost lrec = db.log@;
    let ghost ap2 = ap;
    apply_review_states(db, bundle, p, role, conflicts, &mut ap)?;
    let ghost lrs = db.log@;
    let ghost ap3 = ap;
    apply_dismissals(db, bundle, p, role, now.as_str(), &mut ap)?;
    let ghost ldis = db.log@;
    let ghost ap4 = ap;
    apply_settings(db, bundle, role, &mut ap)?;
    proof {
        assert(settings_stretch(old(db).log@, db.log@)) by {
            assert(grew(old(db).log@, ldis) && settings_writes_ok(ldis, db.log@) && grew(db.log@, db.log@));
        }
        assert(cards_stretch(old(db).log@, db.log@, p.surv_questions@)) by {
            lemma_writes_for_trans(lrec, lrs, ldis, p.surv_questions@, 0);
            assert(grew(old(db).log@, lrec) && writes_for(lrec, ldis, p.surv_questions@, 0) && grew(ldis, db.log@));
        }
        lemma_deletions_grew(ld, db.log@, *p);
        lemma_question_rows_ran_grew(lq, db.log@, rows.questions@, *p, role, now@, cascade_now@);
        lemma_bank_rows_grew(lbk, db.log@, rows.banks@, *p, role, now@, p.write_banks.len() as int);
        lemma_tombs_grew(ld, db.log@, *inp, p.dead_questions@, Kind::Question, "question"@, role, now@, p.dead_questions.len() as int);
        lemma_tombs_grew(ld, db.log@, *inp, p.dead_banks@, Kind::Bank, "bank"@, role, now@, p.dead_banks.len() as int);
        assert(tombs_upto(db.log@, *inp, p.dead_questions@, Kind::Question, "question"@, role, now@, p.dead_questions.len() as int));
        assert(records_stretch(old(db).log@, db.log@, p.surv_questions@)) by {
            assert(grew(old(db).log@, ld) && writes_for(ld, lrec, p.surv_questions@, 1) && records_graded(ld, lrec) && grew(lrec, db.log@));
        }
        let surv = p.surv_questions@;
        let alive = choose|alive: Seq<bool>| #[trigger] records_counted(bundle@, surv, alive, ap1, ap2);
        let items = choose|items: Seq<Json>|
            #[trigger] views(items) == bundle_items(bundle@, "records"@) && alive.len() == items.len()
                && ap2.dropped_orphans == bumps(ap1.dropped_orphans as int, orphans(rec_steps(items, surv, alive, items.len() as int)))
                && ap2.skipped == bumps(ap1.skipped as int, skips(rec_steps(items, surv, alive, items.len() as int)));
        let st2 = choose|st: Seq<ItemStep>|
            orphan_iff_gone(bundle_items(bundle@, "review_state"@), surv, st) && #[trigger] steps_counted(st, ap2, ap3);
        let st3 = choose|st: Seq<ItemStep>|
            orphan_iff_gone(bundle_items(bundle@, "wrong_dismiss"@), surv, st) && #[trigger] steps_counted(st, ap3, ap4);
        assert(orphan_count(bundle@, surv, ap.dropped_orphans as int, items, alive, st2, st3));
    }
    Ok(ap)
}

/// What an apply answers: `{applied: {..}, skipped, dropped_orphans,
/// conflicts: [..]}`.
pub open spec fn apply_report_shape(j: JsonV) -> bool {
    &&& j.field("applied"@) matches Some(JsonV::Object(_))
    &&& j.field("skipped"@) matches Some(JsonV::Num(_))
    &&& j.field("dropped_orphans"@) matches Some(JsonV::Num(_))
    &&& j.field("conflicts"@) matches Some(JsonV::Array(_))
}

proof fn lemma_report_shape(es: Vec<(String, Json)>)
    requires
        es@.len() == 4,
        es@[0].0@ == "applied"@ && es@[0].1@ is Object,
        es@[1].0@ == "skipped"@ && es@[1].1@ is Num,
        es@[2].0@ == "dropped_orphans"@ && es@[2].1@ is Num,
        es@[3].0@ == "conflicts"@ && es@[3].1@ is Array,
    ensures
        apply_report_shape(Json::Object(es)@),
{
    lemma_object_view(es);
    reveal_strlit("applied");
    reveal_strlit("skipped");
    reveal_strlit("dropped_orphans");
    reveal_strlit("conflicts");
    let o = Json::Object(es)@;
    assert(o->Object_0[0] == (es@[0].0@, es@[0].1@));
    assert(o->Object_0[1] == (es@[1].0@, es@[1].1@));
    assert(o->Object_0[2] == (es@[2].0@, es@[2].1@));
    assert(o->Object_0[3] == (es@[3].0@, es@[3].1@));
    assert("applied"@[0] != "skipped"@[0]);
    assert("conflicts"@.len() != "applied"@.len() && "conflicts"@.len() != "dropped_orphans"@.len());
    reveal_with_fuel(lookup, 5);
}

/// The bundle's tombstones of one kind, as `parse_bundle` reads them.
pub open spec fn tombs_in(bundle: JsonV, ts: Seq<(String, Tomb)>, kind: Seq<char>) -> bool {
    match bundle.field("tombstones"@) {
        Some(JsonV::Array(a)) => tombs_from(ts, a, bundle.field_text("device_id"@), kind),
        _ => ts.len() == 0,
    }
}

/// What the merge reads of a bundle: its rows (the last of each id, times
/// normalised) and its tombstones, under the given role.
pub open spec fn merge_input_from(bundle: JsonV, role: SyncRole, inp: MergeInput) -> bool {
    &&& inp.role == role
    &&& exists|rows: Seq<(String, Json)>| #[trigger] bundle_rows(rows, bundle, "banks"@) && times_ok(rows, inp.in_banks@)
    &&& exists|rows: Seq<(String, Json)>| #[trigger] bundle_rows(rows, bundle, "questions"@) && qrows_ok(rows, inp.in_questions@)
    &&& tombs_in(bundle, inp.in_bank_tombs@, "bank"@)
    &&& tombs_in(bundle, inp.in_question_tombs@, "question"@)
}

/// The report's conflicts begin with what Phase A reports.
pub open spec fn starts_with_plan(c: Option<JsonV>, want: Seq<JsonV>) -> bool {
    match c {
        Some(JsonV::Array(a)) => want.len() <= a.len() && a.subrange(0, want.len() as int) == want,
        _ => false,
    }
}

/// The orphans of an apply, counted as Phase B counts them: records whose
/// question does not survive the merge or is gone from the store (given for
/// each record whether its question was alive), then card states, then
/// dismissals whose question does not survive.
pub open spec fn orphan_count(
    bundle: JsonV,
    surv: Seq<String>,
    n: int,
    items: Seq<Json>,
    alive: Seq<bool>,
    st2: Seq<ItemStep>,
    st3: Seq<ItemStep>,
) -> bool {
    &&& views(items) == bundle_items(bundle, "records"@)
    &&& alive.len() == items.len()
    &&& orphan_iff_gone(bundle_items(bundle, "review_state"@), surv, st2)
    &&& orphan_iff_gone(bundle_items(bundle, "wrong_dismiss"@), surv, st3)
    &&& n == bumps(bumps(bumps(0, orphans(rec_steps(items, surv, alive, items.len() as int))), orphans(st2)), orphans(st3))
}

/// `n` is the number of orphans of an apply of the bundle.
pub open spec fn orphans_reported(bundle: JsonV, surv: Seq<String>, n: int) -> bool {
    exists|items: Seq<Json>, alive: Seq<bool>, st2: Seq<ItemStep>, st3: Seq<ItemStep>|
        #[trigger] orphan_count(bundle, surv, n, items, alive, st2, st3)
}

/// The incoming bank and question rows the plan writes were written, each
/// gated by role and stamped as `stamp_of` says for one apply time; the
/// questions as `question_row_ran` says.
pub open spec fn rows_ran(log: Seq<Call>, bundle: JsonV, p: MergePlan, role: SyncRole, cascade_now: Seq<char>) -> bool {
    exists|rows: Seq<(String, Json)>, banks: Seq<(String, Json)>, now: Seq<char>|
        #![trigger question_rows_ran(log, rows, p, role, now, cascade_now), bank_rows_ran(log, banks, p, role, now)]
        bundle_rows(rows, bundle, "questions"@) && bundle_rows(banks, bundle, "banks"@)
            && question_rows_ran(log, rows, p, role, now, cascade_now) && bank_rows_ran(log, banks, p, role, now)
}

/// Between `a` and `b` lies the stretch in which Phase B writes the answer
/// records, and every statement there names, as its question, one that
/// survives the merge, and sets the correct flag by the grade.
pub open spec fn records_stretch(a: Seq<Call>, b: Seq<Call>, surv: Seq<String>) -> bool {
    exists|x: Seq<Call>, y: Seq<Call>| grew(a, x) && #[trigger] writes_for(x, y, surv, 1) && records_graded(x, y) && grew(y, b)
}

/// Law: each answer record that applying a bundle writes (`apply_bundle`
/// states `records_stretch` of its journal) is for a question that survives
/// the merge, carries a grade, and is marked correct (`1`) exactly when that
/// grade is `good` or `easy`, wrong (`0`) otherwise: the rule answering uses.
pub proof fn law_synced_record_correct_flag(a: Seq<Call>, b: Seq<Call>, surv: Seq<String>)
    requires
        records_stretch(a, b, surv),
    ensures
        exists|x: Seq<Call>, y: Seq<Call>| grew(a, x) && grew(y, b) && x.len() <= y.len()
            && forall|i: int| x.len() <= i < y.len() ==> (#[trigger] y[i] matches Call::Run { args: v, .. } ==> {
                &&& names_listed(v, 1, surv)
                &&& v[3] matches SqlV::Text(g)
                    && (v[4] == SqlV::Int(1)) == (g == "good"@ || g == "easy"@)
                    && (v[4] == SqlV::Int(0)) == !(g == "good"@ || g == "easy"@)
            }),
{
    let (x, y) = choose|x: Seq<Call>, y: Seq<Call>| grew(a, x) && #[trigger] writes_for(x, y, surv, 1) && records_graded(x, y) && grew(y, b);
    assert forall|i: int| x.len() <= i < y.len() implies (#[trigger] y[i] matches Call::Run { args: v, .. } ==> {
        &&& names_listed(v, 1, surv)
        &&& v[3] matches SqlV::Text(g)
            && (v[4] == SqlV::Int(1)) == (g == "good"@ || g == "easy"@)
            && (v[4] == SqlV::Int(0)) == !(g == "good"@ || g == "easy"@)
    }) by {
        assert(writes_for(x, y, surv, 1));
        assert(records_graded(x, y));
    }
}

/// Between `a` and `b` lies the stretch in which Phase B writes the review
/// cards and wrong-book dismissals, and every statement there has, as its
/// first parameter, a question that survives the merge.
pub open spec fn cards_stretch(a: Seq<Call>, b: Seq<Call>, surv: Seq<String>) -> bool {
    exists|x: Seq<Call>, y: Seq<Call>| grew(a, x) && #[trigger] writes_for(x, y, surv, 0) && grew(y, b)
}

/// Between `a` and `b` lies the stretch in which Phase B writes the settings,
/// each under a key that is not blank with a value that is JSON text.
pub open spec fn settings_stretch(a: Seq<Call>, b: Seq<Call>) -> bool {
    exists|x: Seq<Call>, y: Seq<Call>| grew(a, x) && #[trigger] settings_writes_ok(x, y) && grew(y, b)
}

/// An apply's report over the input the merge read (the store's rows and
/// tombstones, the horizon, and the bundle's) and the plan it made: the plan
/// decides as `plan_ok` says, and the conflicts start with its report.
pub open spec fn merge_report(bundle: JsonV, role: SyncRole, inp: MergeInput, p: MergePlan, now: Seq<char>, j: JsonV) -> bool {
    &&& merge_input_from(bundle, role, inp)
    &&& plan_ok(inp, p)
    &&& starts_with_plan(j.field("conflicts"@), plan_conflicts_spec(inp, p, now))
    &&& exists|n: int| j.field("dropped_orphans"@) == Some(JsonV::Num(int_numeral(n)))
        && #[trigger] orphans_reported(bundle, p.surv_questions@, n)
}

/// Applies a sync bundle in two phases: Phase A (`plan_merge`) decides on
/// plain values what is written, kept, deleted or moved; Phase B writes it
/// in one transaction. The hub applies with `Center`, a leaf its hub's
/// snapshot with `Leaf`. Returns `{applied, skipped, dropped_orphans,
/// conflicts}`. A bundle that breaks `bundle_ok` (a bank, question or record
/// without its string id, a record, review state or dismissal without its
/// question id, a setting without its key, a malformed tombstone) is an error
/// and nothing is written.
pub fn apply_bundle(db: &mut Db, bundle: &Json, role: SyncRole) -> (r: Result<Json, String>)
    ensures
        grew(old(db).log@, final(db).log@),
        r is Ok ==> bundle_ok(bundle@),
        r matches Ok(j) ==> apply_report_shape(j@),
        r matches Ok(j) ==> exists|inp: MergeInput, p: MergePlan, now: Seq<char>|
            #[trigger] merge_report(bundle@, role, inp, p, now, j@) && deletions_ran(final(db).log@, p)
                && rows_ran(final(db).log@, bundle@, p, role, now) && records_stretch(old(db).log@, final(db).log@, p.surv_questions@)
                && cards_stretch(old(db).log@, final(db).log@, p.surv_questions@)
                && tombs_ran(final(db).log@, inp, p, role) && settings_stretch(old(db).log@, final(db).log@),
        r is Ok ==> committed(final(db).log@),
        r is Err ==> no_writes(old(db).log@, final(db).log@) || rolled_back(final(db).log@),
{
    let floor = tombstone_floor(db)?;
    let ghost lf = db.log@;
    let local_r = read_local(db);
    proof {
        lemma_no_writes_trans(old(db).log@, lf, db.log@);
    }
    let local = local_r?;
    let rows = parse_bundle(bundle)?;
    let in_banks = row_times(&rows.banks)?;
    let in_questions = question_rows(&rows.questions)?;
    let inp = MergeInput {
        role,
        floor,
        local_banks: local.banks,
        local_questions: local.questions,
        local_bank_tombs: local.bank_tombs,
        local_question_tombs: local.question_tombs,
        in_banks,
        in_questions,
        in_bank_tombs: clone_tombs(&rows.bank_tombs),
        in_question_tombs: clone_tombs(&rows.question_tombs),
    };
    proof {
        assert(merge_input_from(bundle@, role, inp)) by {
            assert(bundle_rows(rows.banks@, bundle@, "banks"@));
            assert(bundle_rows(rows.questions@, bundle@, "questions"@));
        }
    }
    let plan = plan_merge(&inp);
    let cascade_now = now_iso()?;
    let mut conflicts = plan_conflicts(&inp, &plan, cascade_now.as_str());
    let ghost c0 = conflicts@;
    let ghost lr = db.log@;
    let began = begin(db);
    proof {
        lemma_no_writes_trans(old(db).log@, lr, db.log@);
    }
    began?;
    let ghost lbeg = db.log@;
    let body = phase_b(db, bundle, &rows, &inp, &plan, role, cascade_now.as_str(), &mut conflicts);
    let ghost lb = db.log@;
    let ap = finish(db, body)?;
    proof {
        lemma_deletions_grew(lb, db.log@, plan);
        let sn = choose|sn: Seq<char>| #[trigger] question_rows_ran(lb, rows.questions@, plan, role, sn, cascade_now@)
            && bank_rows_ran(lb, rows.banks@, plan, role, sn);
        lemma_question_rows_ran_grew(lb, db.log@, rows.questions@, plan, role, sn, cascade_now@);
        lemma_bank_rows_grew(lb, db.log@, rows.banks@, plan, role, sn, plan.write_banks.len() as int);
        assert(bundle_rows(rows.banks@, bundle@, "banks"@));
        assert(bundle_rows(rows.questions@, bundle@, "questions"@));
        assert(bank_rows_ran(db.log@, rows.banks@, plan, role, sn));
        assert(question_rows_ran(db.log@, rows.questions@, plan, role, sn, cascade_now@));
        assert(rows_ran(db.log@, bundle@, plan, role, cascade_now@));
        let (x, y) = choose|x: Seq<Call>, y: Seq<Call>| grew(lbeg, x) && #[trigger] writes_for(x, y, plan.surv_questions@, 1) && records_graded(x, y) && grew(y, lb);
        assert(records_stretch(old(db).log@, db.log@, plan.surv_questions@)) by {
            assert(grew(old(db).log@, x));
            assert(grew(y, db.log@));
        }
        let tn = choose|tn: Seq<char>| #[trigger] tombs_upto(lb, inp, plan.dead_questions@, Kind::Question, "question"@, role, tn, plan.dead_questions.len() as int)
            && tombs_upto(lb, inp, plan.dead_banks@, Kind::Bank, "bank"@, role, tn, plan.dead_banks.len() as int);
        lemma_tombs_grew(lb, db.log@, inp, plan.dead_questions@, Kind::Question, "question"@, role, tn, plan.dead_questions.len() as int);
        lemma_tombs_grew(lb, db.log@, inp, plan.dead_banks@, Kind::Bank, "bank"@, role, tn, plan.dead_banks.len() as int);
        assert(tombs_ran(db.log@, inp, plan, role));
        let (x3, y3) = choose|x: Seq<Call>, y: Seq<Call>| grew(lbeg, x) && #[trigger] settings_writes_ok(x, y) && grew(y, lb);
        assert(settings_stretch(old(db).log@, db.log@)) by {
            assert(grew(old(db).log@, x3));
            assert(grew(y3, db.log@));
        }
        let (x2, y2) = choose|x: Seq<Call>, y: Seq<Call>| grew(lbeg, x) && #[trigger] writes_for(x, y, plan.surv_questions@, 0) && grew(y, lb);
        assert(cards_stretch(old(db).log@, db.log@, plan.surv_questions@)) by {
            assert(grew(old(db).log@, x2));
            assert(grew(y2, db.log@));
        }
    }
    let applied = Json::Object(
        vec![
            entry("banks", Json::from_i64(ap.banks)),
            entry("questions", Json::from_i64(ap.questions)),
            entry("records", Json::from_i64(ap.records)),
            entry("review_state", Json::from_i64(ap.review_state)),
            entry("wrong_dismiss", Json::from_i64(ap.wrong_dismiss)),
            entry("settings", Json::from_i64(ap.settings)),
            entry("tombstones", Json::from_i64(ap.tombstones)),
        ],
    );
    let ghost cf = conflicts@;
    proof {
        lemma_array_view(conflicts);
    }
    let es = vec![
        entry("applied", applied),
        entry("skipped", Json::from_i64(ap.skipped)),
        entry("dropped_orphans", Json::from_i64(ap.dropped_orphans)),
        entry("conflicts", Json::Array(conflicts)),
    ];
    proof {
        lemma_report_shape(es);
        let want = plan_conflicts_spec(inp, plan, cascade_now@);
        let o = Json::Object(es)@;
        lemma_object_view(es);
        reveal_strlit("applied");
        reveal_strlit("skipped");
        reveal_strlit("dropped_orphans");
        reveal_strlit("conflicts");
        let oo = o->Object_0;
        assert(oo[0] == (es@[0].0@, es@[0].1@));
        assert(oo[1] == (es@[1].0@, es@[1].1@));
        assert(oo[2] == (es@[2].0@, es@[2].1@));
        assert(oo[3] == (es@[3].0@, es@[3].1@));
        assert("applied"@[0] != "skipped"@[0]);
        assert("conflicts"@.len() != "applied"@.len() && "conflicts"@.len() != "dropped_orphans"@.len());
        reveal_with_fuel(lookup, 5);
        assert(o.field("conflicts"@) == Some(es@[3].1@));
        let a = es@[3].1@->Array_0;
        assert(views(c0) == want);
        assert(a.subrange(0, want.len() as int) =~= want) by {
            assert forall|k: int| 0 <= k < want.len() implies a[k] == want[k] by {
                assert(views(c0)[k] == c0[k]@);
                assert(a[k] == cf[k]@);
            }
        }
        assert(o.field("dropped_orphans"@) == Some(es@[2].1@));
        assert(orphans_reported(bundle@, plan.surv_questions@, ap.dropped_orphans as int));
        assert(merge_report(bundle@, role, inp, plan, cascade_now@, o));
        assert(deletions_ran(db.log@, plan));
        assert(rows_ran(db.log@, bundle@, plan, role, cascade_now@));
    }
    Ok(Json::Object(es))
}

fn clone_opt(o: &Option<String>) -> (r: Option<String>)
    ensures
        r == *o,
{
    match o {
        Some(s) => Some(s.clone()),
        None => None,
    }
}

fn clone_tombs(ts: &Vec<(String, Tomb)>) -> (r: Vec<(String, Tomb)>)
    ensures
        r@ == ts@,
{
    let mut out: Vec<(String, Tomb)> = Vec::new();
    let mut i: usize = 0;
    while i < ts.len()
        invariant
            0 <= i <= ts.len(),
            out@ == ts@.take(i as int),
        decreases ts.len() - i,
    {
        let t = &ts[i].1;
        out.push(
            (
                ts[i].0.clone(),
                Tomb {
                    bank_id: clone_opt(&t.bank_id),
                    deleted_at: t.deleted_at.clone(),
                    actor: clone_opt(&t.actor),
                    synced_at: t.synced_at.clone(),
                },
            ),
        );
        assert(out@ =~= ts@.take(i + 1));
        i = i + 1;
    }
    out
}

/// The fields of a tombstone row, in the order `tombstone_row` reads them.
pub fn tombstone_fields() -> (r: &'static str)
    ensures
        r@ == "entity_type, entity_id, bank_id, deleted_at, actor, synced_at"@,
{
    "entity_type, entity_id, bank_id, deleted_at, actor, synced_at"
}

/// A tombstone row of `delete_log` as an object.
pub open spec fn tomb_view(row: Seq<SqlValue>) -> JsonV {
    JsonV::Object(
        seq![
            ("entity_type"@, col_view(row[0])),
            ("entity_id"@, col_view(row[1])),
            ("bank_id"@, col_view(row[2])),
            ("deleted_at"@, col_view(row[3])),
            ("actor"@, col_view(row[4])),
            ("synced_at"@, col_view(row[5])),
        ],
    )
}

/// `{entity_type, entity_id, bank_id, deleted_at, actor, synced_at}`.
pub fn tombstone_row(row: &Vec<SqlValue>) -> (r: Json)
    requires
        row.len() == 6,
    ensures
        r@ == tomb_view(row@),
{
    let es = vec![
        entry("entity_type", col_json(row, 0)),
        entry("entity_id", col_json(row, 1)),
        entry("bank_id", col_json(row, 2)),
        entry("deleted_at", col_json(row, 3)),
        entry("actor", col_json(row, 4)),
        entry("synced_at", col_json(row, 5)),
    ];
    proof {
        lemma_object_view(es);
        assert(Json::Object(es)@->Object_0 =~= tomb_view(row@)->Object_0);
    }
    Json::Object(es)
}

/// The tombstones a query over `tombstone_fields` returns, as objects.
pub fn tombstone_rows(db: &mut Db, sql: &str, args: &Vec<SqlValue>) -> (r: Result<Vec<Json>, String>)
    ensures
        grew(old(db).log@, final(db).log@),
        final(db).log@.len() == old(db).log@.len() + 1,
        read_of(final(db).log@.last(), sql@, args_view(args@)),
        r matches Ok(v) ==> forall|i: int| 0 <= i < v.len() ==> exists|row: Seq<SqlValue>|
            row.len() == 6 && (#[trigger] v@[i])@ == tomb_view(row),
{
    let rows = db_query(db, sql, args, 6)?;
    let mut out: Vec<Json> = Vec::new();
    let mut i: usize = 0;
    while i < rows.len()
        invariant
            grew(old(db).log@, db.log@),
            0 <= i <= rows.len(),
            out.len() == i,
            forall|j: int| 0 <= j < rows.len() ==> (#[trigger] rows@[j]).len() == 6,
            forall|j: int| 0 <= j < i ==> (#[trigger] out@[j])@ == tomb_view(rows@[j]@),
        decreases rows.len() - i,
    {
        out.push(tombstone_row(&rows[i]));
        i = i + 1;
    }
    assert forall|j: int| 0 <= j < out.len() implies exists|row: Seq<SqlValue>|
        row.len() == 6 && (#[trigger] out@[j])@ == tomb_view(row) by {
        assert(rows@[j]@.len() == 6 && out@[j]@ == tomb_view(rows@[j]@));
    }
    Ok(out)
}

/// The cursor text of an export: the cursor, or the empty text without one.
pub open spec fn since_text(since: Option<&str>) -> Seq<char> {
    match since {
        Some(s) => s@,
        None => Seq::empty(),
    }
}

/// The two parameters of the export queries: the cursor (empty without one)
/// and the server time, as texts.
pub open spec fn window_ok(w: Seq<SqlValue>, since: Seq<char>, server_time: Seq<char>) -> bool {
    &&& w.len() == 2
    &&& w[0] matches SqlValue::Text(a) && a@ == since
    &&& w[1] matches SqlValue::Text(b) && b@ == server_time
}

/// The window `(since, server_time]` that the export queries are bound to.
pub fn delta_window(since: Option<&str>, server_time: &str) -> (r: Vec<SqlValue>)
    ensures
        window_ok(r@, since_text(since), server_time@),
        args_view(r@) == seq![SqlV::Text(since_text(since)), SqlV::Text(server_time@)],
{
    let ghost st = since_text(since);
    let cursor = match since {
        Some(s) => s.to_owned(),
        None => String::new(),
    };
    let r = vec![SqlValue::Text(cursor), SqlValue::Text(server_time.to_owned())];
    assert(args_view(r@) =~= seq![SqlV::Text(st), SqlV::Text(server_time@)]);
    r
}

/// Banks stamped in the window, by id.
pub const DELTA_BANKS: &'static str = "SELECT id, name, description, created_at, updated_at, synced_at FROM banks
     WHERE synced_at > ?1 AND synced_at <= ?2 ORDER BY id ASC";

/// Questions stamped in the window, by id.
pub const DELTA_QUESTIONS: &'static str = "SELECT id, bank_id, type, version, difficulty, score, status, stem_json, options_json,
            answer_json, analysis_json, children_json, plain_text, created_at, updated_at, synced_at
     FROM questions WHERE synced_at > ?1 AND synced_at <= ?2 ORDER BY id ASC";

/// Answer records stamped in the window, by id.
pub const DELTA_RECORDS: &'static str = "SELECT id, question_id, mode, grade, correct, answered_at, elapsed_ms,
            detail_json, fsrs_log, synced_at
     FROM practice_records WHERE synced_at > ?1 AND synced_at <= ?2 ORDER BY id ASC";

/// Every card state, by question.
pub const DELTA_CARDS: &'static str = "SELECT question_id, due_at, stability, difficulty, reps, lapses, state,
            learning_steps, scheduled_days, last_result, last_reviewed_at, updated_at
     FROM review_state ORDER BY question_id ASC";

/// Every wrong-book dismissal, by question.
pub const DELTA_DISMISSALS: &'static str = "SELECT question_id, is_dismissed, updated_at, dismissed_at, synced_at
     FROM wrong_dismiss ORDER BY question_id ASC";

/// Every setting, by key.
pub const DELTA_SETTINGS: &'static str = "SELECT key, value_json, updated_at FROM app_settings ORDER BY key ASC";

/// Tombstones stamped in the window, oldest first.
pub const DELTA_TOMBS: &'static str = "SELECT entity_type, entity_id, bank_id, deleted_at, actor, synced_at FROM delete_log WHERE synced_at > ?1 AND synced_at <= ?2 ORDER BY synced_at ASC, entity_id ASC";

/// The journal of an export: after `a`, exactly its seven queries in order,
/// the banks, questions, records and tombstones bound to the window
/// `(since, server_time]`, the card states, dismissals and settings whole.
pub open spec fn export_log(a: Seq<Call>, b: Seq<Call>, since: Seq<char>, server_time: Seq<char>) -> bool {
    let w = seq![SqlV::Text(since), SqlV::Text(server_time)];
    let n = a.len() as int;
    &&& grew(a, b)
    &&& b.len() == n + 7
    &&& read_of(b[n], DELTA_BANKS@, w)
    &&& read_of(b[n + 1], DELTA_QUESTIONS@, w)
    &&& read_of(b[n + 2], DELTA_RECORDS@, w)
    &&& read_of(b[n + 3], DELTA_CARDS@, seq![])
    &&& read_of(b[n + 4], DELTA_DISMISSALS@, seq![])
    &&& read_of(b[n + 5], DELTA_SETTINGS@, seq![])
    &&& read_of(b[n + 6], DELTA_TOMBS@, w)
}

/// The members of an exported bank.
pub open spec fn bank_cols() -> Seq<&'static str> {
    seq!["id", "name", "description", "created_at", "updated_at", "synced_at"]
}

/// The members of an exported question.
pub open spec fn question_cols() -> Seq<&'static str> {
    seq!["id", "bank_id", "type", "version", "difficulty", "score", "status", "stem", "options", "answer", "analysis", "children", "plain_text", "created_at", "updated_at", "synced_at"]
}

/// How the columns of an exported question become JSON: the score a
/// number, the five documents parsed.
pub open spec fn question_kinds() -> Seq<Col> {
    seq![Col::Plain, Col::Plain, Col::Plain, Col::Plain, Col::Plain, Col::Num, Col::Plain, Col::Doc, Col::Doc, Col::Doc, Col::Doc, Col::Doc, Col::Plain, Col::Plain, Col::Plain, Col::Plain]
}

/// The members of an exported answer record.
pub open spec fn record_cols() -> Seq<&'static str> {
    seq!["id", "question_id", "mode", "grade", "correct", "answered_at", "elapsed_ms", "detail_json", "fsrs_log", "synced_at"]
}

/// The members of an exported card state.
pub open spec fn card_cols() -> Seq<&'static str> {
    seq!["question_id", "due_at", "stability", "difficulty", "reps", "lapses", "state", "learning_steps", "scheduled_days", "last_result", "last_reviewed_at", "updated_at"]
}

/// How the columns of an exported card state become JSON: stability,
/// difficulty and scheduled days as numbers.
pub open spec fn card_kinds() -> Seq<Col> {
    seq![Col::Plain, Col::Plain, Col::Num, Col::Num, Col::Plain, Col::Plain, Col::Plain, Col::Plain, Col::Num, Col::Plain, Col::Plain, Col::Plain]
}

/// The members of an exported dismissal.
pub open spec fn dismissal_cols() -> Seq<&'static str> {
    seq!["question_id", "is_dismissed", "updated_at", "dismissed_at", "synced_at"]
}

/// The members of an exported setting.
pub open spec fn setting_cols() -> Seq<&'static str> {
    seq!["key", "value_json", "updated_at"]
}

/// `n` plain columns.
pub open spec fn plain_cols(n: nat) -> Seq<Col> {
    Seq::new(n, |i: int| Col::Plain)
}

/// The bundle's collections are the rows the export's queries returned,
/// starting at journal position `n`, each row as its object.
pub open spec fn delta_values(b: JsonV, log: Seq<Call>, n: int) -> bool {
    &&& b.field("banks"@) == Some(objects_of(bank_cols(), plain_cols(6), rows_read(log[n])))
    &&& b.field("questions"@) == Some(objects_of(question_cols(), question_kinds(), rows_read(log[n + 1])))
    &&& b.field("records"@) == Some(objects_of(record_cols(), plain_cols(10), rows_read(log[n + 2])))
    &&& b.field("review_state"@) == Some(objects_of(card_cols(), card_kinds(), rows_read(log[n + 3])))
    &&& b.field("wrong_dismiss"@) == Some(objects_of(dismissal_cols(), plain_cols(5), rows_read(log[n + 4])))
    &&& b.field("settings"@) == Some(objects_of(setting_cols(), plain_cols(3), rows_read(log[n + 5])))
}

/// The changes since a cursor, as a bundle, and the server time it was taken
/// at. Rows and tombstones are those stamped in `(since, server_time]`; card
/// states, dismissals and settings are sent whole.
pub fn export_delta(db: &mut Db, since: Option<&str>) -> (r: Result<(Json, String), String>)
    ensures
        grew(old(db).log@, final(db).log@),
        r matches Ok((b, t)) ==> delta_shape(b@) && exists|a: int, n: int| #[trigger] iso_of(a, n) == Some(t@),
        r matches Ok((_, t)) ==> export_log(old(db).log@, final(db).log@, since_text(since), t@),
        r matches Ok((b, _)) ==> delta_values(b@, final(db).log@, old(db).log@.len() as int),
{
    let server_time = now_iso()?;
    let window = delta_window(since, server_time.as_str());
    let bank_n = vec!["id", "name", "description", "created_at", "updated_at", "synced_at"];
    let bank_k = vec![Col::Plain, Col::Plain, Col::Plain, Col::Plain, Col::Plain, Col::Plain];
    assert(bank_n@ =~= bank_cols() && bank_k@ =~= plain_cols(6nat));
    let question_n = vec!["id", "bank_id", "type", "version", "difficulty", "score", "status", "stem", "options", "answer", "analysis", "children", "plain_text", "created_at", "updated_at", "synced_at"];
    let question_k = vec![Col::Plain, Col::Plain, Col::Plain, Col::Plain, Col::Plain, Col::Num, Col::Plain, Col::Doc, Col::Doc, Col::Doc, Col::Doc, Col::Doc, Col::Plain, Col::Plain, Col::Plain, Col::Plain];
    assert(question_n@ =~= question_cols() && question_k@ =~= question_kinds());
    let record_n = vec!["id", "question_id", "mode", "grade", "correct", "answered_at", "elapsed_ms", "detail_json", "fsrs_log", "synced_at"];
    let record_k = vec![Col::Plain, Col::Plain, Col::Plain, Col::Plain, Col::Plain, Col::Plain, Col::Plain, Col::Plain, Col::Plain, Col::Plain];
    assert(record_n@ =~= record_cols() && record_k@ =~= plain_cols(10nat));
    let card_n = vec!["question_id", "due_at", "stability", "difficulty", "reps", "lapses", "state", "learning_steps", "scheduled_days", "last_result", "last_reviewed_at", "updated_at"];
    let card_k = vec![Col::Plain, Col::Plain, Col::Num, Col::Num, Col::Plain, Col::Plain, Col::Plain, Col::Plain, Col::Num, Col::Plain, Col::Plain, Col::Plain];
    assert(card_n@ =~= card_cols() && card_k@ =~= card_kinds());
    let dismissal_n = vec!["question_id", "is_dismissed", "updated_at", "dismissed_at", "synced_at"];
    let dismissal_k = vec![Col::Plain, Col::Plain, Col::Plain, Col::Plain, Col::Plain];
    assert(dismissal_n@ =~= dismissal_cols() && dismissal_k@ =~= plain_cols(5nat));
    let setting_n = vec!["key", "value_json", "updated_at"];
    let setting_k = vec![Col::Plain, Col::Plain, Col::Plain];
    assert(setting_n@ =~= setting_cols() && setting_k@ =~= plain_cols(3nat));
    let ghost l0 = db.log@;
    let banks = rows_as_objects(
        db,
        DELTA_BANKS,
        &window,
        &bank_n,
        &bank_k,
    )?;
    let ghost l1 = db.log@;
    let questions = rows_as_objects(
        db,
        DELTA_QUESTIONS,
        &window,
        &question_n,
        &question_k,
    )?;
    let ghost l2 = db.log@;
    let records = rows_as_objects(
        db,
        DELTA_RECORDS,
        &window,
        &record_n,
        &record_k,
    )?;
    let ghost l3 = db.log@;
    let review_state = rows_as_objects(
        db,
        DELTA_CARDS,
        &vec![],
        &card_n,
        &card_k,
    )?;
    let ghost l4 = db.log@;
    let wrong_dismiss = rows_as_objects(
        db,
        DELTA_DISMISSALS,
        &vec![],
        &dismissal_n,
        &dismissal_k,
    )?;
    let ghost l5 = db.log@;
    let settings = rows_as_objects(
        db,
        DELTA_SETTINGS,
        &vec![],
        &setting_n,
        &setting_k,
    )?;
    let ghost l6 = db.log@;
    let tombstones = tombstone_rows(db, DELTA_TOMBS, &window)?;
    proof {
        let l7 = db.log@;
        let n = l0.len() as int;
        assert(l7[n] == l1[n] && l7[n + 1] == l2[n + 1] && l7[n + 2] == l3[n + 2]);
        assert(l7[n + 3] == l4[n + 3] && l7[n + 4] == l5[n + 4] && l7[n + 5] == l6[n + 5]);
        assert(args_view(Seq::<SqlValue>::empty()) =~= Seq::<SqlV>::empty());
    }
    let es = vec![
        entry("banks", Json::Array(banks)),
        entry("questions", Json::Array(questions)),
        entry("records", Json::Array(records)),
        entry("review_state", Json::Array(review_state)),
        entry("wrong_dismiss", Json::Array(wrong_dismiss)),
        entry("settings", Json::Array(settings)),
        entry("tombstones", Json::Array(tombstones)),
    ];
    proof {
        lemma_delta_shape(es);
        let l7 = db.log@;
        let n = l0.len() as int;
        assert(l7[n] == l1.last() && l7[n + 1] == l2.last() && l7[n + 2] == l3.last());
        assert(l7[n + 3] == l4.last() && l7[n + 4] == l5.last() && l7[n + 5] == l6.last());
    }
    Ok((Json::Object(es), server_time))
}

/// An array whose items are all objects.
pub open spec fn array_of_objects(v: Option<JsonV>) -> bool {
    v matches Some(JsonV::Array(a)) && forall|i: int| 0 <= i < a.len() ==> (#[trigger] a[i]) is Object
}

/// What `export_delta` sends: an object whose seven collections are arrays
/// of row objects.
pub open spec fn delta_shape(b: JsonV) -> bool {
    &&& array_of_objects(b.field("banks"@))
    &&& array_of_objects(b.field("questions"@))
    &&& array_of_objects(b.field("records"@))
    &&& array_of_objects(b.field("review_state"@))
    &&& array_of_objects(b.field("wrong_dismiss"@))
    &&& array_of_objects(b.field("settings"@))
    &&& array_of_objects(b.field("tombstones"@))
}

proof fn lemma_delta_shape(es: Vec<(String, Json)>)
    requires
        es@.len() == 7,
        es@[0].0@ == "banks"@ && array_of_objects(Some(es@[0].1@)),
        es@[1].0@ == "questions"@ && array_of_objects(Some(es@[1].1@)),
        es@[2].0@ == "records"@ && array_of_objects(Some(es@[2].1@)),
        es@[3].0@ == "review_state"@ && array_of_objects(Some(es@[3].1@)),
        es@[4].0@ == "wrong_dismiss"@ && array_of_objects(Some(es@[4].1@)),
        es@[5].0@ == "settings"@ && array_of_objects(Some(es@[5].1@)),
        es@[6].0@ == "tombstones"@ && array_of_objects(Some(es@[6].1@)),
    ensures
        delta_shape(Json::Object(es)@),
        Json::Object(es)@.field("banks"@) == Some(es@[0].1@),
        Json::Object(es)@.field("questions"@) == Some(es@[1].1@),
        Json::Object(es)@.field("records"@) == Some(es@[2].1@),
        Json::Object(es)@.field("review_state"@) == Some(es@[3].1@),
        Json::Object(es)@.field("wrong_dismiss"@) == Some(es@[4].1@),
        Json::Object(es)@.field("settings"@) == Some(es@[5].1@),
{
    lemma_object_view(es);
    reveal_strlit("banks");
    reveal_strlit("questions");
    reveal_strlit("records");
    reveal_strlit("review_state");
    reveal_strlit("wrong_dismiss");
    reveal_strlit("settings");
    reveal_strlit("tombstones");
    let o = Json::Object(es)@->Object_0;
    assert(o[0] == (es@[0].0@, es@[0].1@));
    assert(o[1] == (es@[1].0@, es@[1].1@));
    assert(o[2] == (es@[2].0@, es@[2].1@));
    assert(o[3] == (es@[3].0@, es@[3].1@));
    assert(o[4] == (es@[4].0@, es@[4].1@));
    assert(o[5] == (es@[5].0@, es@[5].1@));
    assert(o[6] == (es@[6].0@, es@[6].1@));
    assert(o[0].0.len() == 5 && o[1].0.len() == 9 && o[2].0.len() == 7 && o[3].0.len() == 12);
    assert(o[4].0.len() == 13 && o[5].0.len() == 8 && o[6].0.len() == 10);
    reveal_with_fuel(lookup, 8);
}

/// What a pull answers: `{server_time, tombstone_floor, bundle}`, the
/// bundle as `export_delta` makes it, the floor a time or `null`.
pub open spec fn pull_shape(j: JsonV) -> bool {
    &&& j.field("server_time"@) matches Some(JsonV::Str(_))
    &&& j.field("tombstone_floor"@) matches Some(f) && (f is Str || f is Null)
    &&& j.field("bundle"@) matches Some(b) && delta_shape(b)
}

/// Drops tombstones synced before the horizon.
pub const TOMB_GC: &'static str = "DELETE FROM delete_log WHERE synced_at < ?1";
/// Persists the pull cursor.
pub const CURSOR_SAVE: &'static str = "INSERT INTO db_meta (key, value) VALUES ('sync_cursor_server_time', ?1)
         ON CONFLICT(key) DO UPDATE SET value = excluded.value";

/// The cursor of a pull as text (empty without one).
pub open spec fn cursor_text(since: Option<String>) -> Seq<char> {
    match since {
        Some(s) => s@,
        None => Seq::empty(),
    }
}

/// The hub's pull: collect tombstones older than the horizon, take the
/// changes since the cursor, the horizon, and persist the cursor.
/// `{server_time, tombstone_floor, bundle}`.
pub fn sync_pull_impl(db: &mut Db, since: Option<String>) -> (r: Result<Json, String>)
    ensures
        grew(old(db).log@, final(db).log@),
        r matches Ok(j) ==> pull_shape(j@),
        r is Ok ==> final(db).log@.len() > old(db).log@.len() + 8,
        r is Ok ==> (final(db).log@[old(db).log@.len() as int] matches Call::Run { sql: s, args: a, done: Some(_) }
            && s == TOMB_GC@ && a.len() == 1),
        r matches Ok(j) ==> (j@.field("server_time"@) matches Some(JsonV::Str(st)) && {
            let n = old(db).log@.len() as int;
            let l = final(db).log@;
            &&& export_log(l.take(n + 1), l.take(n + 8), cursor_text(since), st)
            &&& j@.field("bundle"@) matches Some(b) && delta_values(b, l, n + 1)
            &&& exists|k: int| n + 8 <= k < l.len() && is_run(#[trigger] l[k], CURSOR_SAVE@, seq![SqlV::Text(st)])
        }),
{
    let now = clock_now()?;
    if now.0 <= i64::MIN + 7_776_000 {
        return Err("clock out of range".to_owned());
    }
    let gc_before = fmt_iso((now.0 - 7_776_000, now.1))?;
    let ghost n = db.log@.len() as int;
    db_execute(db, TOMB_GC, &vec![SqlValue::Text(gc_before)])?;
    let ghost l1 = db.log@;
    let s = match &since {
        Some(x) => Some(x.as_str()),
        None => None,
    };
    assert(since_text(s) == cursor_text(since));
    let (bundle, server_time) = export_delta(db, s)?;
    let ghost l8 = db.log@;
    let floor = tombstone_floor(db)?;
    let ghost l9 = db.log@;
    let cargs = vec![SqlValue::Text(server_time.clone())];
    assert(args_view(cargs@) =~= seq![SqlV::Text(server_time@)]);
    db_execute(db, CURSOR_SAVE, &cargs)?;
    proof {
        let l = db.log@;
        assert(l[n] == l1[n]);
        assert(l.take(n + 1) =~= l1);
        assert(l.take(n + 8) =~= l8);
        assert forall|i: int| 0 <= i < l8.len() implies #[trigger] l8[i] == l[i] by {
            assert(l8[i] == l9[i]);
        }
        assert(is_run(l[l.len() - 1], CURSOR_SAVE@, seq![SqlV::Text(server_time@)]));
    }
    let es = vec![
        entry("server_time", Json::Str(server_time)),
        entry("tombstone_floor", Json::from_opt_str(&floor)),
        entry("bundle", bundle),
    ];
    proof {
        lemma_object_view(es);
        reveal_strlit("server_time");
        reveal_strlit("tombstone_floor");
        reveal_strlit("bundle");
        let o = Json::Object(es)@->Object_0;
        assert(o[0] == (es@[0].0@, es@[0].1@));
        assert(o[1] == (es@[1].0@, es@[1].1@));
        assert(o[2] == (es@[2].0@, es@[2].1@));
        assert(o[0].0.len() == 11 && o[1].0.len() == 15 && o[2].0.len() == 6);
        reveal_with_fuel(lookup, 4);
    }
    Ok(Json::Object(es))
}

/// The hub receiving a leaf's push: `apply_bundle` as `Center`.
pub fn sync_push_impl(db: &mut Db, bundle: &Json) -> (r: Result<Json, String>)
    ensures
        grew(old(db).log@, final(db).log@),
        r is Ok ==> bundle_ok(bundle@),
        r matches Ok(j) ==> apply_report_shape(j@),
        r matches Ok(j) ==> exists|inp: MergeInput, p: MergePlan, now: Seq<char>|
            #[trigger] merge_report(bundle@, SyncRole::Center, inp, p, now, j@) && deletions_ran(final(db).log@, p)
                && rows_ran(final(db).log@, bundle@, p, SyncRole::Center, now) && records_stretch(old(db).log@, final(db).log@, p.surv_questions@)
                && cards_stretch(old(db).log@, final(db).log@, p.surv_questions@)
                && tombs_ran(final(db).log@, inp, p, SyncRole::Center) && settings_stretch(old(db).log@, final(db).log@),
        r is Ok ==> committed(final(db).log@),
        r is Err ==> no_writes(old(db).log@, final(db).log@) || rolled_back(final(db).log@),
{
    apply_bundle(db, bundle, SyncRole::Center)
}

/// A leaf taking its hub's snapshot: `apply_bundle` as `Leaf`.
pub fn sync_apply_snapshot_impl(db: &mut Db, bundle: &Json) -> (r: Result<Json, String>)
    ensures
        grew(old(db).log@, final(db).log@),
        r is Ok ==> bundle_ok(bundle@),
        r matches Ok(j) ==> apply_report_shape(j@),
        r matches Ok(j) ==> exists|inp: MergeInput, p: MergePlan, now: Seq<char>|
            #[trigger] merge_report(bundle@, SyncRole::Leaf, inp, p, now, j@) && deletions_ran(final(db).log@, p)
                && rows_ran(final(db).log@, bundle@, p, SyncRole::Leaf, now) && records_stretch(old(db).log@, final(db).log@, p.surv_questions@)
                && cards_stretch(old(db).log@, final(db).log@, p.surv_questions@)
                && tombs_ran(final(db).log@, inp, p, SyncRole::Leaf) && settings_stretch(old(db).log@, final(db).log@),
        r is Ok ==> committed(final(db).log@),
        r is Err ==> no_writes(old(db).log@, final(db).log@) || rolled_back(final(db).log@),
{
    apply_bundle(db, bundle, SyncRole::Leaf)
}

} // verus!
