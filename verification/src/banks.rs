//! Banks: create, rename, list, and delete with its cascade of tombstones;
//! the last bank can never be deleted.
use vstd::prelude::*;
use crate::db::{Db, grew, Call, SqlV, ran, is_run, args_view, rows_view, committed, no_writes, rolled_back, lemma_no_writes_trans};
use crate::db::{Col, keyed_as, rows_as_objects, SqlValue, db_execute, db_query, query_int, query_exists, begin, finish, col_json, col_text, text};
use crate::json::{Json, JsonV, entry, lemma_object_view};
use crate::text::{blank, trim, is_blank, trim_spec};
use crate::clock::now_iso;
use crate::ids::generate_id;
use crate::sync::{write_tombstone, tomb_logged, lemma_tomb_logged_grew};

verus! {

/// The bank columns with the number of questions in each.
pub fn bank_select_count() -> (r: &'static str)
    ensures
        r@ == "SELECT b.id, b.name, b.description, b.created_at, b.updated_at, COUNT(q.id) AS question_count
     FROM banks b LEFT JOIN questions q ON q.bank_id = b.id"@,
{
    "SELECT b.id, b.name, b.description, b.created_at, b.updated_at, COUNT(q.id) AS question_count
     FROM banks b LEFT JOIN questions q ON q.bank_id = b.id"
}

/// `{id, name, description, question_count, created_at, updated_at}` of a
/// row of `bank_select_count`.
pub fn bank_row_to_value(row: &Vec<SqlValue>) -> (r: Json)
    requires
        row.len() == 6,
    ensures
        r@.is_object(),
        row@[0] matches SqlValue::Text(id) ==> r@.field("id"@) == Some(JsonV::Str(id@)),
{
    let es = vec![
        entry("id", col_json(row, 0)),
        entry("name", col_json(row, 1)),
        entry("description", col_json(row, 2)),
        entry("question_count", col_json(row, 5)),
        entry("created_at", col_json(row, 3)),
        entry("updated_at", col_json(row, 4)),
    ];
    proof {
        lemma_object_view(es);
    }
    let o = Json::Object(es);
    assert(o@->Object_0[0].0 == "id"@);
    o
}

pub fn fetch_bank(db: &mut Db, id: &str) -> (r: Result<Option<Json>, String>)
    ensures
        grew(old(db).log@, final(db).log@),
        r matches Ok(Some(v)) ==> v@.is_object(),
{
    let sql = crate::text::cat(bank_select_count(), " WHERE b.id = ?1 GROUP BY b.id");
    let rows = db_query(db, sql.as_str(), &vec![text(id)], 6)?;
    if rows.len() == 0 {
        return Ok(None);
    }
    Ok(Some(bank_row_to_value(&rows[0])))
}

/// Every bank, oldest first, as `{id, name, description, created_at, updated_at}`.
pub fn list_all_banks(db: &mut Db) -> (r: Result<Vec<Json>, String>)
    ensures
        grew(old(db).log@, final(db).log@),
        r matches Ok(v) ==> forall|i: int| 0 <= i < v.len() ==> keyed_as(
            (#[trigger] v@[i])@,
            seq!["id", "name", "description", "created_at", "updated_at"],
        ),
{
    rows_as_objects(
        db,
        "SELECT id, name, description, created_at, updated_at FROM banks ORDER BY created_at ASC, id ASC",
        &vec![],
        &vec!["id", "name", "description", "created_at", "updated_at"],
        &vec![Col::Plain, Col::Plain, Col::Plain, Col::Plain, Col::Plain],
    )
}

/// `bank_default` when it exists, else the oldest bank; an error when there
/// is none.
pub fn resolve_default_bank(db: &mut Db) -> (r: Result<String, String>)
    ensures
        grew(old(db).log@, final(db).log@),
{
    if query_exists(db, "SELECT 1 FROM banks WHERE id = 'bank_default'", &vec![])? {
        return Ok("bank_default".to_string());
    }
    let rows = db_query(db, "SELECT id FROM banks ORDER BY created_at ASC, id ASC LIMIT 1", &vec![], 1)?;
    if rows.len() == 0 {
        return Err("题库不存在，请先创建题库".to_string());
    }
    match col_text(&rows[0], 0) {
        Some(id) => Ok(id),
        None => Err("题库不存在，请先创建题库".to_string()),
    }
}

/// Every bank with its question count, oldest first.
pub fn banks_list_impl(db: &mut Db) -> (r: Result<Vec<Json>, String>)
    ensures
        grew(old(db).log@, final(db).log@),
        r matches Ok(v) ==> forall|i: int| 0 <= i < v.len() ==> (#[trigger] v@[i])@.is_object(),
{
    let sql = crate::text::cat(bank_select_count(), " GROUP BY b.id ORDER BY b.created_at ASC, b.id ASC");
    let rows = db_query(db, sql.as_str(), &vec![], 6)?;
    let mut out: Vec<Json> = Vec::new();
    let mut i: usize = 0;
    while i < rows.len()
        invariant
            grew(old(db).log@, db.log@),
            0 <= i <= rows.len(),
            out.len() == i,
            forall|j: int| 0 <= j < rows.len() ==> (#[trigger] rows@[j]).len() == 6,
            forall|j: int| 0 <= j < out.len() ==> (#[trigger] out@[j])@.is_object(),
        decreases rows.len() - i,
    {
        out.push(bank_row_to_value(&rows[i]));
        i = i + 1;
    }
    Ok(out)
}

/// Inserts a bank row: id, name, description, then its creation, update and
/// sync times.
pub const BANK_INSERT: &'static str = "INSERT INTO banks (id, name, description, created_at, updated_at, synced_at) VALUES (?1, ?2, ?3, ?4, ?5, ?6)";

/// The plain value of an optional description.
pub open spec fn desc_arg(d: Option<&str>) -> SqlV {
    match d {
        Some(t) => SqlV::Text(t@),
        None => SqlV::Null,
    }
}

/// The call inserted a bank named `name` with the description `desc`, all
/// three of its clocks set to one time.
pub open spec fn bank_insert_call(c: Call, name: Seq<char>, desc: SqlV) -> bool {
    &&& c matches Call::Run { sql: s, args: a, done: Some(_) }
    &&& s == BANK_INSERT@ && a.len() == 6
    &&& a[1] == SqlV::Text(name) && a[2] == desc
    &&& a[3] == a[4] && a[4] == a[5]
}

/// Creates a bank under a new id with the trimmed name; a blank name is
/// refused.
pub fn banks_create_impl(db: &mut Db, name: &str, description: Option<&str>) -> (r: Result<Json, String>)
    ensures
        grew(old(db).log@, final(db).log@),
        blank(name@) ==> (r matches Err(e) && e@ == "题库名称不能为空"@),
        blank(name@) ==> final(db).log@ == old(db).log@,
        r matches Ok(b) ==> b@.is_object(),
        r is Ok ==> exists|k: int| old(db).log@.len() <= k < final(db).log@.len()
            && bank_insert_call(#[trigger] final(db).log@[k], trim_spec(name@), desc_arg(description)),
{
    if is_blank(name) {
        return Err("题库名称不能为空".to_owned());
    }
    let ghost given = name@;
    let name = trim(name);
    let id = generate_id();
    let now = now_iso()?;
    let desc = match description {
        Some(d) => text(d),
        None => SqlValue::Null,
    };
    let args = vec![SqlValue::Text(id.clone()), SqlValue::Text(name), desc, SqlValue::Text(now.clone()), SqlValue::Text(now.clone()), SqlValue::Text(now)];
    let ghost at = db.log@.len();
    db_execute(db, BANK_INSERT, &args)?;
    let ghost mid = db.log@;
    assert(bank_insert_call(mid[at as int], trim_spec(given), desc_arg(description)));
    match fetch_bank(db, id.as_str())? {
        Some(b) => {
            assert(db.log@[at as int] == mid[at as int]);
            Ok(b)
        },
        None => Err("stored bank missing".to_string()),
    }
}

/// Whether a bank of that id exists.
pub const BANK_EXISTS: &'static str = "SELECT 1 FROM banks WHERE id = ?1";
/// Sets name and description, stamping both clocks.
pub const BANK_SET_BOTH: &'static str = "UPDATE banks SET name = ?1, description = ?2, updated_at = ?3, synced_at = ?3 WHERE id = ?4";
/// Sets the name, stamping both clocks.
pub const BANK_SET_NAME: &'static str = "UPDATE banks SET name = ?1, updated_at = ?2, synced_at = ?2 WHERE id = ?3";
/// Sets the description, stamping both clocks.
pub const BANK_SET_DESC: &'static str = "UPDATE banks SET description = ?1, updated_at = ?2, synced_at = ?2 WHERE id = ?3";

/// The call is the update that `banks_update_impl` owes for the bank `id`
/// with that new name and description.
pub open spec fn bank_update_call(c: Call, id: Seq<char>, name: Option<&str>, desc: Option<&str>) -> bool {
    &&& c matches Call::Run { sql: s, args: a, done: Some(_) }
    &&& match (name, desc) {
        (Some(n), Some(d)) => s == BANK_SET_BOTH@ && a.len() == 4 && a[0] == SqlV::Text(trim_spec(n@))
            && a[1] == SqlV::Text(d@) && a[3] == SqlV::Text(id),
        (Some(n), None) => s == BANK_SET_NAME@ && a.len() == 3 && a[0] == SqlV::Text(trim_spec(n@))
            && a[2] == SqlV::Text(id),
        (None, Some(d)) => s == BANK_SET_DESC@ && a.len() == 3 && a[0] == SqlV::Text(d@)
            && a[2] == SqlV::Text(id),
        (None, None) => false,
    }
}

/// Renames a bank and/or sets its description, stamping both clocks; an
/// unknown id is `Not Found` and a blank new name is refused.
pub fn banks_update_impl(db: &mut Db, id: &str, name: Option<&str>, description: Option<&str>) -> (r: Result<Json, String>)
    ensures
        grew(old(db).log@, final(db).log@),
        final(db).log@.len() > old(db).log@.len(),
        ({
            let c = final(db).log@[old(db).log@.len() as int];
            c matches Call::Read { sql: s, args: a, .. } && s == BANK_EXISTS@ && a == seq![SqlV::Text(id@)]
        }),
        ({
            let c = final(db).log@[old(db).log@.len() as int];
            c matches Call::Read { rows: Some(rs), .. } && rs.len() == 0
        }) ==> (r matches Err(e) && e@ == "Not Found"@ && final(db).log@.len() == old(db).log@.len() + 1),
        r is Ok ==> (name matches Some(n) ==> !blank(n@)),
        (name matches Some(n) && blank(n@)) ==> r is Err,
        r matches Ok(b) ==> b@.is_object(),
        r is Ok && !(name is None && description is None) ==> exists|k: int|
            old(db).log@.len() < k < final(db).log@.len()
            && bank_update_call(#[trigger] final(db).log@[k], id@, name, description),
{
    let ghost at = db.log@.len();
    if !query_exists(db, BANK_EXISTS, &vec![text(id)])? {
        return Err("Not Found".to_string());
    }
    let ghost l1 = db.log@;
    if let Some(n) = name {
        if is_blank(n) {
            return Err("题库名称不能为空".to_string());
        }
    }
    let now = now_iso()?;
    let ghost l2 = db.log@;
    match (name, description) {
        (Some(n), Some(d)) => {
            db_execute(db, BANK_SET_BOTH, &vec![SqlValue::Text(trim(n)), text(d), SqlValue::Text(now), text(id)])?;
        },
        (Some(n), None) => {
            db_execute(db, BANK_SET_NAME, &vec![SqlValue::Text(trim(n)), SqlValue::Text(now), text(id)])?;
        },
        (None, Some(d)) => {
            db_execute(db, BANK_SET_DESC, &vec![text(d), SqlValue::Text(now), text(id)])?;
        },
        (None, None) => {},
    }
    let ghost l3 = db.log@;
    proof {
        assert(l1[at as int] == l3[at as int]);
        if !(name is None && description is None) {
            assert(bank_update_call(l3[l2.len() as int], id@, name, description));
        }
    }
    match fetch_bank(db, id)? {
        Some(b) => {
            assert(db.log@[at as int] == l3[at as int]);
            proof {
                if !(name is None && description is None) {
                    assert(db.log@[l2.len() as int] == l3[l2.len() as int]);
                }
            }
            Ok(b)
        },
        None => Err("Not Found".to_string()),
    }
}

/// Whether a bank may be removed, given whether it exists and how many banks
/// the store holds: an unknown bank is `Not Found`, and the last bank is
/// kept.
pub fn bank_remove_check(found: bool, total: i64) -> (r: Result<(), String>)
    ensures
        !found ==> (r matches Err(e) && e@ == "Not Found"@),
        found && total <= 1 ==> (r matches Err(e) && e@ == "至少保留一个题库"@),
        found && total > 1 ==> r is Ok,
{
    if !found {
        return Err("Not Found".to_string());
    }
    if total <= 1 {
        return Err("至少保留一个题库".to_string());
    }
    Ok(())
}

/// Deletes a bank and, by cascade, its questions, logging a tombstone for
/// each in the same transaction. The last bank is never deleted.
pub fn banks_remove_impl(db: &mut Db, id: &str, actor: Option<&str>) -> (r: Result<Json, String>)
    ensures
        grew(old(db).log@, final(db).log@),
        r is Ok ==> bank_cascade_ran(final(db).log@, id@) && committed(final(db).log@),
        r matches Ok(v) ==> v@.field("id"@) == Some(JsonV::Str(id@)),
        r is Err ==> no_writes(old(db).log@, final(db).log@) || rolled_back(final(db).log@),
{
    let found = query_exists(db, "SELECT 1 FROM banks WHERE id = ?1", &vec![text(id)])?;
    let ghost l1 = db.log@;
    let total = if found {
        let t = query_int(db, "SELECT COUNT(*) FROM banks", &vec![]);
        proof {
            lemma_no_writes_trans(old(db).log@, l1, db.log@);
        }
        t?
    } else {
        0
    };
    let ghost l2 = db.log@;
    bank_remove_check(found, total)?;
    let b = begin(db);
    proof {
        lemma_no_writes_trans(old(db).log@, l2, db.log@);
    }
    b?;
    let body = banks_remove_tx(db, id, actor);
    let ghost lb = db.log@;
    finish(db, body)?;
    proof {
        let (now, kq) = choose|now: Seq<char>, kq: int| #[trigger] cascade_at(lb, id@, now, kq);
        lemma_cascade_grew(lb, db.log@, id@, now, kq);
    }
    let es = vec![entry("id", Json::from_str(id))];
    proof {
        lemma_object_view(es);
    }
    let o = Json::Object(es);
    assert(o@->Object_0[0].0 == "id"@);
    Ok(o)
}

fn banks_remove_tx(db: &mut Db, id: &str, actor: Option<&str>) -> (r: Result<(), String>)
    ensures
        grew(old(db).log@, final(db).log@),
        r is Ok ==> bank_cascade_ran(final(db).log@, id@),
{
    let now = now_iso()?;
    let qargs = vec![text(id)];
    assert(args_view(qargs@) =~= seq![SqlV::Text(id@)]);
    let rows = db_query(db, QUESTIONS_OF_BANK, &qargs, 1)?;
    let ghost kq = (db.log@.len() - 1) as int;
    let ghost rs = rows_view(rows@);
    let mut i: usize = 0;
    while i < rows.len()
        invariant
            grew(old(db).log@, db.log@),
            0 <= i <= rows.len(),
            forall|j: int| 0 <= j < rows.len() ==> (#[trigger] rows@[j]).len() == 1,
            0 <= kq < db.log@.len(),
            rs == rows_view(rows@),
            db.log@[kq] == (Call::Read { sql: QUESTIONS_OF_BANK@, args: seq![SqlV::Text(id@)], rows: Some(rs) }),
            forall|j: int| 0 <= j < i ==> (#[trigger] rs[j][0] matches SqlV::Text(q) ==> exists|s: Seq<char>| tomb_logged(db.log@, "question"@, q, now@, s)),
        decreases rows.len() - i,
    {
        let ghost l0 = db.log@;
        assert(rs[i as int] == args_view(rows@[i as int]@));
        if let Some(qid) = col_text(&rows[i], 0) {
            write_tombstone(db, "question", qid.as_str(), Some(id), now.as_str(), actor)?;
            proof {
                assert(rs[i as int][0] == SqlV::Text(qid@));
                let sq = choose|sq: Seq<char>| #[trigger] tomb_logged(db.log@, "question"@, qid@, now@, sq);
                assert(tomb_logged(db.log@, "question"@, rs[i as int][0]->Text_0, now@, sq));
            }
        } else {
            assert(!(rs[i as int][0] is Text));
        }
        proof {
            let l = db.log@;
            assert(l[kq] == l0[kq]);
            assert forall|j: int| 0 <= j < i + 1 implies (#[trigger] rs[j][0] matches SqlV::Text(q) ==> exists|s: Seq<char>| tomb_logged(l, "question"@, q, now@, s)) by {
                if j < i {
                    if let SqlV::Text(q) = rs[j][0] {
                        let s = choose|s: Seq<char>| tomb_logged(l0, "question"@, q, now@, s);
                        lemma_tomb_logged_grew(l0, l, "question"@, q, now@, s);
                    }
                } else {
                    assert(rs[j] == args_view(rows@[j]@));
                }
            }
        }
        i = i + 1;
    }
    let ghost lq = db.log@;
    write_tombstone(db, "bank", id, Some(id), now.as_str(), actor)?;
    let ghost lt = db.log@;
    db_execute(db, BANK_DELETE, &qargs)?;
    proof {
        let l = db.log@;
        assert(l[kq] == lq[kq]);
        let sb = choose|sb: Seq<char>| #[trigger] tomb_logged(lt, "bank"@, id@, now@, sb);
        lemma_tomb_logged_grew(lt, l, "bank"@, id@, now@, sb);
        assert(is_run(l[l.len() - 1], BANK_DELETE@, seq![SqlV::Text(id@)]));
        assert forall|j: int| 0 <= j < rs.len() implies (#[trigger] rs[j][0] matches SqlV::Text(q) ==> exists|s: Seq<char>| tomb_logged(l, "question"@, q, now@, s)) by {
            if let SqlV::Text(q) = rs[j][0] {
                let s = choose|s: Seq<char>| tomb_logged(lq, "question"@, q, now@, s);
                lemma_tomb_logged_grew(lq, l, "question"@, q, now@, s);
            }
        }
        assert(cascade_at(l, id@, now@, kq));
    }
    Ok(())
}

/// The questions of a bank.
pub const QUESTIONS_OF_BANK: &'static str = "SELECT id FROM questions WHERE bank_id = ?1";

/// Deletes a bank row (its questions go by cascade).
pub const BANK_DELETE: &'static str = "DELETE FROM banks WHERE id = ?1";

/// At position `kq` the journal read the bank's questions; it logged a
/// tombstone at `now` for each of them and for the bank, and deleted the bank.
pub open spec fn cascade_at(log: Seq<Call>, id: Seq<char>, now: Seq<char>, kq: int) -> bool {
    &&& 0 <= kq < log.len()
    &&& log[kq] matches Call::Read { sql: s, args: a, rows: Some(rs) }
    &&& s == QUESTIONS_OF_BANK@ && a == seq![SqlV::Text(id)]
    &&& forall|j: int| 0 <= j < rs.len() ==> (#[trigger] rs[j][0] matches SqlV::Text(q) ==> exists|x: Seq<char>| tomb_logged(log, "question"@, q, now, x))
    &&& exists|x: Seq<char>| #[trigger] tomb_logged(log, "bank"@, id, now, x)
    &&& ran(log, BANK_DELETE@, seq![SqlV::Text(id)])
}

proof fn lemma_cascade_grew(a: Seq<Call>, b: Seq<Call>, id: Seq<char>, now: Seq<char>, kq: int)
    requires
        grew(a, b),
        cascade_at(a, id, now, kq),
    ensures
        cascade_at(b, id, now, kq),
{
    assert(b[kq] == a[kq]);
    if let Call::Read { sql: _, args: _, rows: Some(rs) } = a[kq] {
        assert forall|j: int| 0 <= j < rs.len() implies (#[trigger] rs[j][0] matches SqlV::Text(q) ==> exists|x: Seq<char>| tomb_logged(b, "question"@, q, now, x)) by {
            if let SqlV::Text(q) = rs[j][0] {
                let x = choose|x: Seq<char>| tomb_logged(a, "question"@, q, now, x);
                lemma_tomb_logged_grew(a, b, "question"@, q, now, x);
            }
        }
    }
    let x = choose|x: Seq<char>| #[trigger] tomb_logged(a, "bank"@, id, now, x);
    lemma_tomb_logged_grew(a, b, "bank"@, id, now, x);
    crate::db::lemma_ran_grew(a, b, BANK_DELETE@, seq![SqlV::Text(id)]);
}

/// The journal removed the bank with its questions, as `cascade_at` says.
pub open spec fn bank_cascade_ran(log: Seq<Call>, id: Seq<char>) -> bool {
    exists|now: Seq<char>, kq: int| #[trigger] cascade_at(log, id, now, kq)
}

} // verus!
