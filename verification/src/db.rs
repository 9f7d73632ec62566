//! The SQLite store: statements go through `rusqlite`, values as plain
//! integers, text and blobs. What a query returns depends on what is on disk,
//! so nothing is promised of it beyond its shape; what the library hands to
//! SQLite is kept in a journal (`Db::log`), over which the commands state
//! which statements they run and with which parameters.
use vstd::prelude::*;

verus! {

#[verifier::external_type_specification]
#[verifier::external_body]
pub struct ExConnection(rusqlite::Connection);

#[verifier::external_type_specification]
#[verifier::external_body]
pub struct ExSqliteValue(rusqlite::types::Value);

/// A value of an SQL column or parameter. A REAL column is read back as the
/// text of the number; written as text, SQLite's REAL affinity stores a number.
#[derive(Debug)]
pub enum SqlValue {
    Null,
    Int(i64),
    Text(String),
    Blob(Vec<u8>),
}

/// One `rusqlite` value for one `SqlValue`.
#[verifier::external_body]
fn to_sqlite(v: &SqlValue) -> rusqlite::types::Value {
    match v {
        SqlValue::Null => rusqlite::types::Value::Null,
        SqlValue::Int(i) => rusqlite::types::Value::Integer(*i),
        SqlValue::Text(s) => rusqlite::types::Value::Text(s.clone()),
        SqlValue::Blob(b) => rusqlite::types::Value::Blob(b.clone()),
    }
}

/// One `SqlValue` for one `rusqlite` value; a REAL becomes the text
/// `serde_json` prints for it (a non-finite one, `NULL`).
#[verifier::external_body]
fn from_sqlite(v: rusqlite::types::Value) -> SqlValue {
    match v {
        rusqlite::types::Value::Null => SqlValue::Null,
        rusqlite::types::Value::Integer(i) => SqlValue::Int(i),
        rusqlite::types::Value::Real(x) => match serde_json::Number::from_f64(x) {
            Some(n) => SqlValue::Text(n.to_string()),
            None => SqlValue::Null,
        },
        rusqlite::types::Value::Text(s) => SqlValue::Text(s),
        rusqlite::types::Value::Blob(b) => SqlValue::Blob(b),
    }
}

/// `Connection::execute`: runs one statement with positional parameters and
/// returns the number of rows it changed, or the error's text.
#[verifier::external_body]
fn sqlite_execute(conn: &rusqlite::Connection, sql: &str, args: &Vec<SqlValue>) -> (r: Result<usize, String>) {
    let vals: Vec<rusqlite::types::Value> = args.iter().map(to_sqlite).collect();
    conn.execute(sql, rusqlite::params_from_iter(vals)).map_err(|e| e.to_string())
}

/// `Connection::execute_batch`: runs statements without parameters.
#[verifier::external_body]
fn sqlite_batch(conn: &rusqlite::Connection, sql: &str) -> (r: Result<(), String>) {
    conn.execute_batch(sql).map_err(|e| e.to_string())
}

/// `Connection::prepare` and `Statement::query`: the rows of a query, each
/// holding its first `ncols` columns, or the error's text.
#[verifier::external_body]
fn sqlite_query(conn: &rusqlite::Connection, sql: &str, args: &Vec<SqlValue>, ncols: usize) -> (r: Result<Vec<Vec<SqlValue>>, String>)
    ensures
        r matches Ok(rows) ==> forall|i: int| 0 <= i < rows.len() ==> (#[trigger] rows@[i]).len() == ncols,
{
    let vals: Vec<rusqlite::types::Value> = args.iter().map(to_sqlite).collect();
    let mut stmt = conn.prepare(sql).map_err(|e| e.to_string())?;
    let mut rows = stmt.query(rusqlite::params_from_iter(vals)).map_err(|e| e.to_string())?;
    let mut out = Vec::new();
    while let Some(row) = rows.next().map_err(|e| e.to_string())? {
        let mut cols = Vec::new();
        for i in 0..ncols {
            cols.push(from_sqlite(row.get(i).map_err(|e| e.to_string())?));
        }
        out.push(cols);
    }
    Ok(out)
}

/// A parameter or column as a plain value.
pub enum SqlV {
    Null,
    Int(i64),
    Text(Seq<char>),
    Blob(Seq<u8>),
}

/// The plain value of a parameter or column.
pub open spec fn val_view(v: SqlValue) -> SqlV {
    match v {
        SqlValue::Null => SqlV::Null,
        SqlValue::Int(n) => SqlV::Int(n),
        SqlValue::Text(t) => SqlV::Text(t@),
        SqlValue::Blob(b) => SqlV::Blob(b@),
    }
}

/// The plain values of parameters.
pub open spec fn args_view(a: Seq<SqlValue>) -> Seq<SqlV> {
    a.map_values(|v: SqlValue| val_view(v))
}

/// One call the library handed to SQLite: a statement with its parameters
/// and the number of rows it changed (`None` when it failed), a query with its parameters and the rows it returned (`None` when it
/// failed), or a parameterless batch (`BEGIN`, `COMMIT`, `ROLLBACK`, schema).
pub enum Call {
    Run { sql: Seq<char>, args: Seq<SqlV>, done: Option<usize> },
    Read { sql: Seq<char>, args: Seq<SqlV>, rows: Option<Seq<Seq<SqlV>>> },
    Batch { sql: Seq<char> },
}

/// Some call of the journal ran `sql` with the parameters `args`.
pub open spec fn ran(log: Seq<Call>, sql: Seq<char>, args: Seq<SqlV>) -> bool {
    exists|k: int| 0 <= k < log.len() && is_run(#[trigger] log[k], sql, args)
}

/// The call ran `sql` with the parameters `args`.
pub open spec fn is_run(c: Call, sql: Seq<char>, args: Seq<SqlV>) -> bool {
    c matches Call::Run { sql: s, args: a, .. } && s == sql && a == args
}

/// The call is a query of `sql` with the parameters `args` whose first row
/// begins with the integer `n`.
pub open spec fn int_read(c: Call, sql: Seq<char>, args: Seq<SqlV>, n: i64) -> bool {
    &&& c matches Call::Read { sql: s, args: a, rows: Some(rs) }
    &&& s == sql && a == args && rs.len() > 0 && rs[0].len() > 0 && rs[0][0] == SqlV::Int(n)
}

/// Some call of the journal from position `from` on is such a query.
pub open spec fn read_in(log: Seq<Call>, from: int, sql: Seq<char>, args: Seq<SqlV>, n: i64) -> bool {
    exists|k: int| from <= k < log.len() && int_read(#[trigger] log[k], sql, args, n)
}

/// The text of the first column of the first row, if there is one.
pub open spec fn first_text(rs: Seq<Seq<SqlV>>) -> Option<Seq<char>> {
    if rs.len() > 0 && rs[0].len() > 0 {
        match rs[0][0] {
            SqlV::Text(t) => Some(t),
            _ => None,
        }
    } else {
        None
    }
}

/// The call ran `sql`, with whatever parameters.
pub open spec fn run_of(c: Call, sql: Seq<char>) -> bool {
    c matches Call::Run { sql: s, .. } && s == sql
}

/// The journal ends with a `COMMIT`.
pub open spec fn committed(log: Seq<Call>) -> bool {
    log.len() > 0 && log.last() == (Call::Batch { sql: "COMMIT"@ })
}

/// The journal ran `sql` once for each of `ids`, with that id as its only
/// parameter.
pub open spec fn ran_each(log: Seq<Call>, sql: Seq<char>, ids: Seq<String>) -> bool {
    forall|j: int| 0 <= j < ids.len() ==> ran(log, sql, seq![SqlV::Text(#[trigger] ids[j]@)])
}

/// What a journal ran stays in its continuations.
pub proof fn lemma_ran_grew(a: Seq<Call>, b: Seq<Call>, sql: Seq<char>, args: Seq<SqlV>)
    requires
        grew(a, b),
        ran(a, sql, args),
    ensures
        ran(b, sql, args),
{
    let k = choose|k: int| 0 <= k < a.len() && is_run(#[trigger] a[k], sql, args);
    assert(b[k] == a[k]);
}

/// What a journal ran for each id stays in its continuations.
pub proof fn lemma_ran_each_grew(a: Seq<Call>, b: Seq<Call>, sql: Seq<char>, ids: Seq<String>)
    requires
        grew(a, b),
        ran_each(a, sql, ids),
    ensures
        ran_each(b, sql, ids),
{
    assert forall|j: int| 0 <= j < ids.len() implies ran(b, sql, seq![SqlV::Text(#[trigger] ids[j]@)]) by {
        lemma_ran_grew(a, b, sql, seq![SqlV::Text(ids[j]@)]);
    }
}

/// A connection with the journal of the calls made through it.
pub struct Db<'a> {
    pub conn: &'a rusqlite::Connection,
    pub log: Ghost<Seq<Call>>,
}

impl<'a> Db<'a> {
    /// A connection with an empty journal.
    pub fn new(conn: &'a rusqlite::Connection) -> (r: Db<'a>)
        ensures
            r.conn == conn,
            r.log@ == Seq::<Call>::empty(),
    {
        Db { conn, log: Ghost(Seq::empty()) }
    }
}

/// The journal `b` continues the journal `a`: calls are only ever added.
pub open spec fn grew(a: Seq<Call>, b: Seq<Call>) -> bool {
    &&& a.len() <= b.len()
    &&& forall|i: int| 0 <= i < a.len() ==> #[trigger] a[i] == b[i]
}

/// From `a` to `b` the journal ran no statement: every call added is a
/// query or a transaction batch.
pub open spec fn no_writes(a: Seq<Call>, b: Seq<Call>) -> bool {
    &&& grew(a, b)
    &&& forall|i: int| a.len() <= i < b.len() ==> !(#[trigger] b[i] is Run)
}

/// No statement after no statement is none.
pub proof fn lemma_no_writes_trans(a: Seq<Call>, b: Seq<Call>, c: Seq<Call>)
    requires
        no_writes(a, b),
        no_writes(b, c),
    ensures
        no_writes(a, c),
{
    assert forall|i: int| a.len() <= i < c.len() implies !(#[trigger] c[i] is Run) by {
        if i < b.len() {
            assert(!(b[i] is Run));
            assert(c[i] == b[i]);
        }
    }
}

/// Parameter `at` of the statement names one of the questions `surv`.
pub open spec fn names_listed(a: Seq<SqlV>, at: int, surv: Seq<String>) -> bool {
    0 <= at < a.len() && match a[at] {
        SqlV::Text(q) => exists|k: int| 0 <= k < surv.len() && surv[k]@ == q,
        _ => false,
    }
}

/// From `a` to `b`, every statement the journal ran has, as parameter `at`,
/// one of the questions `surv`.
pub open spec fn writes_for(a: Seq<Call>, b: Seq<Call>, surv: Seq<String>, at: int) -> bool {
    &&& grew(a, b)
    &&& forall|i: int| a.len() <= i < b.len() ==> (#[trigger] b[i] matches Call::Run { args: x, .. } ==> names_listed(x, at, surv))
}

/// Such stretches of the journal chain.
pub proof fn lemma_writes_for_trans(a: Seq<Call>, b: Seq<Call>, c: Seq<Call>, surv: Seq<String>, at: int)
    requires
        writes_for(a, b, surv, at),
        writes_for(b, c, surv, at),
    ensures
        writes_for(a, c, surv, at),
{
    assert forall|i: int| a.len() <= i < c.len() implies (#[trigger] c[i] matches Call::Run { args: x, .. } ==> names_listed(x, at, surv)) by {
        if i < b.len() {
            assert(c[i] == b[i]);
        }
    }
}

/// A stretch without statements is such a stretch.
pub proof fn lemma_no_writes_for(a: Seq<Call>, b: Seq<Call>, surv: Seq<String>, at: int)
    requires
        no_writes(a, b),
    ensures
        writes_for(a, b, surv, at),
{
    assert forall|i: int| a.len() <= i < b.len() implies (#[trigger] b[i] matches Call::Run { args: x, .. } ==> names_listed(x, at, surv)) by {
        assert(!(b[i] is Run));
    }
}

/// The journal ends with a `ROLLBACK`.
pub open spec fn rolled_back(log: Seq<Call>) -> bool {
    log.len() > 0 && log.last() == (Call::Batch { sql: "ROLLBACK"@ })
}

/// The rows of a query as plain sequences.
pub open spec fn rows_view(rows: Seq<Vec<SqlValue>>) -> Seq<Seq<SqlV>> {
    rows.map_values(|r: Vec<SqlValue>| args_view(r@))
}

/// Runs one statement with positional parameters; the number of rows it
/// changed, or the error's text. The call is journaled either way.
pub fn db_execute(db: &mut Db, sql: &str, args: &Vec<SqlValue>) -> (r: Result<usize, String>)
    ensures
        final(db).conn == old(db).conn,
        final(db).log@ == old(db).log@.push(Call::Run {
            sql: sql@,
            args: args_view(args@),
            done: match r {
                Ok(n) => Some(n),
                Err(_) => None,
            },
        }),
        grew(old(db).log@, final(db).log@),
{
    let r = sqlite_execute(db.conn, sql, args);
    let ghost done = match &r {
        Ok(n) => Some(*n),
        Err(_) => None,
    };
    db.log = Ghost(db.log@.push(Call::Run { sql: sql@, args: args_view(args@), done }));
    r
}

/// Runs parameterless statements; journaled either way.
pub fn db_batch(db: &mut Db, sql: &str) -> (r: Result<(), String>)
    ensures
        final(db).conn == old(db).conn,
        final(db).log@ == old(db).log@.push(Call::Batch { sql: sql@ }),
        grew(old(db).log@, final(db).log@),
{
    let r = sqlite_batch(db.conn, sql);
    db.log = Ghost(db.log@.push(Call::Batch { sql: sql@ }));
    r
}

/// The rows of a query, each holding its first `ncols` columns; the query
/// and what it returned are journaled.
pub fn db_query(db: &mut Db, sql: &str, args: &Vec<SqlValue>, ncols: usize) -> (r: Result<Vec<Vec<SqlValue>>, String>)
    ensures
        final(db).conn == old(db).conn,
        r matches Ok(rows) ==> forall|i: int| 0 <= i < rows.len() ==> (#[trigger] rows@[i]).len() == ncols,
        grew(old(db).log@, final(db).log@),
        no_writes(old(db).log@, final(db).log@),
        final(db).log@ == old(db).log@.push(Call::Read {
            sql: sql@,
            args: args_view(args@),
            rows: match r {
                Ok(rows) => Some(rows_view(rows@)),
                Err(_) => None,
            },
        }),
{
    let r = sqlite_query(db.conn, sql, args, ncols);
    let ghost rv = match &r {
        Ok(rows) => Some(rows_view(rows@)),
        Err(_) => None,
    };
    db.log = Ghost(db.log@.push(Call::Read { sql: sql@, args: args_view(args@), rows: rv }));
    r
}

pub fn text(s: &str) -> (v: SqlValue)
    ensures
        v matches SqlValue::Text(t) && t@ == s@,
{
    SqlValue::Text(s.to_string())
}

pub fn opt_text(s: &Option<String>) -> (v: SqlValue)
    ensures
        match s {
            Some(t) => v matches SqlValue::Text(u) && u@ == t@,
            None => v is Null,
        },
{
    match s {
        Some(t) => SqlValue::Text(t.clone()),
        None => SqlValue::Null,
    }
}

/// The text of a column (`None` for anything else).
pub fn col_text(row: &Vec<SqlValue>, i: usize) -> (r: Option<String>)
    requires
        i < row.len(),
    ensures
        match r {
            Some(s) => row@[i as int] matches SqlValue::Text(t) && t@ == s@,
            None => !(row@[i as int] is Text),
        },
{
    match &row[i] {
        SqlValue::Text(t) => Some(t.clone()),
        _ => None,
    }
}

/// The integer of a column (`None` for anything else).
pub fn col_int(row: &Vec<SqlValue>, i: usize) -> (r: Option<i64>)
    requires
        i < row.len(),
    ensures
        match r {
            Some(n) => row@[i as int] == SqlValue::Int(n),
            None => !(row@[i as int] is Int),
        },
{
    match &row[i] {
        SqlValue::Int(n) => Some(*n),
        _ => None,
    }
}

/// A query expected to return one row with one integer (a count, a sum).
pub(crate) fn query_int(db: &mut Db, sql: &str, args: &Vec<SqlValue>) -> (r: Result<i64, String>)
    ensures
        grew(old(db).log@, final(db).log@),
        no_writes(old(db).log@, final(db).log@),
        final(db).log@.len() == old(db).log@.len() + 1,
        r matches Ok(n) ==> int_read(final(db).log@.last(), sql@, args_view(args@), n),
{
    let rows = db_query(db, sql, args, 1)?;
    if rows.len() == 0 {
        return Err("query returned no rows".to_string());
    }
    match col_int(&rows[0], 0) {
        Some(n) => Ok(n),
        None => Err("query returned a non-integer".to_string()),
    }
}

/// The first text column of the first row, if there is one.
pub(crate) fn query_opt_text(db: &mut Db, sql: &str, args: &Vec<SqlValue>) -> (r: Result<Option<String>, String>)
    ensures
        grew(old(db).log@, final(db).log@),
        no_writes(old(db).log@, final(db).log@),
        final(db).log@.len() == old(db).log@.len() + 1,
        r matches Ok(t) ==> final(db).log@.last() matches Call::Read { sql: s, args: a, rows: Some(rs) }
            && s == sql@ && a == args_view(args@) && first_text(rs) == match t {
                Some(x) => Some(x@),
                None => None,
            },
{
    let rows = db_query(db, sql, args, 1)?;
    if rows.len() == 0 {
        return Ok(None);
    }
    Ok(col_text(&rows[0], 0))
}

/// Whether the query returns any row.
pub(crate) fn query_exists(db: &mut Db, sql: &str, args: &Vec<SqlValue>) -> (r: Result<bool, String>)
    ensures
        grew(old(db).log@, final(db).log@),
        no_writes(old(db).log@, final(db).log@),
        final(db).log@.len() == old(db).log@.len() + 1,
        final(db).log@.last() matches Call::Read { sql: s, args: a, rows: rs }
            && s == sql@ && a == args_view(args@) && (r is Ok <==> rs is Some),
        r matches Ok(b) ==> final(db).log@.last() matches Call::Read { sql: s, args: a, rows: Some(rs) }
            && s == sql@ && a == args_view(args@) && b == (rs.len() > 0),
{
    let rows = db_query(db, sql, args, 1)?;
    Ok(rows.len() > 0)
}

/// Opens a transaction (`BEGIN`).
pub fn begin(db: &mut Db) -> (r: Result<(), String>)
    ensures
        final(db).log@ == old(db).log@.push(Call::Batch { sql: "BEGIN"@ }),
        grew(old(db).log@, final(db).log@),
        no_writes(old(db).log@, final(db).log@),
{
    db_batch(db, "BEGIN")
}

/// Ends the transaction a body ran in: commits after success, rolls back
/// after an error and hands the error on.
pub fn finish<T>(db: &mut Db, body: Result<T, String>) -> (r: Result<T, String>)
    ensures
        body is Err ==> r == body,
        r is Ok ==> r == body,
        r is Ok ==> final(db).log@ == old(db).log@.push(Call::Batch { sql: "COMMIT"@ }),
        body is Err ==> final(db).log@ == old(db).log@.push(Call::Batch { sql: "ROLLBACK"@ }),
        r is Err ==> rolled_back(final(db).log@),
        grew(old(db).log@, final(db).log@),
{
    match body {
        Ok(v) => match db_batch(db, "COMMIT") {
            Ok(()) => Ok(v),
            Err(e) => {
                let _ = db_batch(db, "ROLLBACK");
                Err(e)
            },
        },
        Err(e) => {
            let _ = db_batch(db, "ROLLBACK");
            Err(e)
        },
    }
}

/// The JSON value of a column as `col_json` renders it.
pub open spec fn col_view(v: SqlValue) -> crate::json::JsonV {
    match v {
        SqlValue::Text(t) => crate::json::JsonV::Str(t@),
        SqlValue::Int(n) => crate::json::JsonV::Num(crate::json::int_numeral(n as int)),
        _ => crate::json::JsonV::Null,
    }
}

/// The JSON value of a numeric column as `col_num` renders it.
pub open spec fn col_num_view(v: SqlValue) -> crate::json::JsonV {
    match v {
        SqlValue::Text(t) => crate::json::JsonV::Num(t@),
        SqlValue::Int(n) => crate::json::JsonV::Num(crate::json::int_numeral(n as int)),
        _ => crate::json::JsonV::Null,
    }
}

/// The JSON value of a numeric column: an integer, or the text of a REAL,
/// as a number; anything else as `null`.
pub fn col_num(row: &Vec<SqlValue>, i: usize) -> (r: crate::json::Json)
    requires
        i < row.len(),
    ensures
        r@ == col_num_view(row@[i as int]),
{
    match &row[i] {
        SqlValue::Text(t) => crate::json::Json::Num(t.clone()),
        SqlValue::Int(n) => crate::json::Json::from_i64(*n),
        _ => crate::json::Json::Null,
    }
}

/// The JSON value of a column: text as a string, an integer as a number,
/// anything else as `null`.
pub fn col_json(row: &Vec<SqlValue>, i: usize) -> (r: crate::json::Json)
    requires
        i < row.len(),
    ensures
        r@ == col_view(row@[i as int]),
{
    match &row[i] {
        SqlValue::Text(t) => crate::json::Json::Str(t.clone()),
        SqlValue::Int(n) => crate::json::Json::from_i64(*n),
        _ => crate::json::Json::Null,
    }
}

/// How a column of an exported row is rendered.
#[derive(Clone, Copy)]
pub enum Col {
    /// As stored: text, integer or null.
    Plain,
    /// A REAL column: as its number.
    Num,
    /// Stored JSON text: parsed.
    Doc,
}

/// An object whose members are named `names`, in that order.
pub open spec fn keyed_as(o: crate::json::JsonV, names: Seq<&str>) -> bool {
    &&& o is Object
    &&& o->Object_0.len() == names.len()
    &&& forall|c: int| 0 <= c < names.len() ==> (#[trigger] o->Object_0[c]).0 == names[c]@
}

/// An array of objects, each with the members `names` in that order.
pub open spec fn rows_keyed(v: Option<crate::json::JsonV>, names: Seq<&str>) -> bool {
    v matches Some(crate::json::JsonV::Array(a)) && forall|i: int| 0 <= i < a.len() ==> keyed_as(#[trigger] a[i], names)
}

/// The call is a query of `sql` with the parameters `args`.
pub open spec fn read_of(c: Call, sql: Seq<char>, args: Seq<SqlV>) -> bool {
    c matches Call::Read { sql: s, args: a, .. } && s == sql && a == args
}

/// The JSON a column of the given kind becomes: a plain column as text,
/// number or `null`; a REAL column as its number; a document column parsed.
pub open spec fn cell_json(k: Col, v: SqlV) -> crate::json::JsonV {
    match k {
        Col::Plain => match v {
            SqlV::Text(t) => crate::json::JsonV::Str(t),
            SqlV::Int(n) => crate::json::JsonV::Num(crate::json::int_numeral(n as int)),
            _ => crate::json::JsonV::Null,
        },
        Col::Num => match v {
            SqlV::Text(t) => crate::json::JsonV::Num(t),
            SqlV::Int(n) => crate::json::JsonV::Num(crate::json::int_numeral(n as int)),
            _ => crate::json::JsonV::Null,
        },
        Col::Doc => match v {
            SqlV::Text(t) => match crate::json::json_parsed(t) {
                Some(d) => d,
                None => crate::json::JsonV::Null,
            },
            _ => crate::json::JsonV::Null,
        },
    }
}

/// The object a row becomes: one member per named column, in order.
pub open spec fn row_object(names: Seq<&str>, kinds: Seq<Col>, row: Seq<SqlV>) -> crate::json::JsonV {
    crate::json::JsonV::Object(Seq::new(names.len(), |c: int| (names[c]@, cell_json(kinds[c], row[c]))))
}

/// The rows a query returned (none where it failed).
pub open spec fn rows_read(c: Call) -> Seq<Seq<SqlV>> {
    match c {
        Call::Read { rows: Some(rs), .. } => rs,
        _ => Seq::empty(),
    }
}

/// Rows as the array of their objects.
pub open spec fn objects_of(names: Seq<&str>, kinds: Seq<Col>, rs: Seq<Seq<SqlV>>) -> crate::json::JsonV {
    crate::json::JsonV::Array(Seq::new(rs.len(), |i: int| row_object(names, kinds, rs[i])))
}

/// Rows of a query as objects, one member per named column.
pub fn rows_as_objects(db: &mut Db, sql: &str, args: &Vec<SqlValue>, names: &Vec<&str>, kinds: &Vec<Col>) -> (r: Result<Vec<crate::json::Json>, String>)
    requires
        names.len() == kinds.len(),
    ensures
        grew(old(db).log@, final(db).log@),
        final(db).log@.len() == old(db).log@.len() + 1,
        read_of(final(db).log@.last(), sql@, args_view(args@)),
        r matches Ok(v) ==> forall|i: int| 0 <= i < v.len() ==> keyed_as((#[trigger] v@[i])@, names@),
        r matches Ok(v) ==> final(db).log@.last() matches Call::Read { rows: Some(rs), .. } && rs.len() == v.len()
            && forall|i: int| 0 <= i < v.len() ==> (#[trigger] v@[i])@ == row_object(names@, kinds@, rs[i]),
        r matches Ok(v) ==> crate::json::Json::Array(v)@ == objects_of(names@, kinds@, rows_read(final(db).log@.last())),
{
    let n = names.len();
    let rows = db_query(db, sql, args, n)?;
    let ghost rs = rows_view(rows@);
    let mut out: Vec<crate::json::Json> = Vec::new();
    let mut i: usize = 0;
    while i < rows.len()
        invariant
            0 <= i <= rows.len(),
            n == names.len(),
            names.len() == kinds.len(),
            forall|j: int| 0 <= j < rows.len() ==> (#[trigger] rows@[j]).len() == n,
            out.len() == i,
            forall|j: int| 0 <= j < i ==> keyed_as((#[trigger] out@[j])@, names@),
            rs == rows_view(rows@),
            forall|j: int| 0 <= j < i ==> (#[trigger] out@[j])@ == row_object(names@, kinds@, rs[j]),
        decreases rows.len() - i,
    {
        let row = &rows[i];
        let mut es: Vec<(String, crate::json::Json)> = Vec::new();
        let mut c: usize = 0;
        while c < n
            invariant
                0 <= c <= n,
                n == names.len(),
                names.len() == kinds.len(),
                row.len() == n,
                es.len() == c,
                forall|k: int| 0 <= k < c ==> (#[trigger] es@[k]).0@ == names@[k]@,
                forall|k: int| 0 <= k < c ==> (#[trigger] es@[k]).1@ == cell_json(kinds@[k], val_view(row@[k])),
            decreases n - c,
        {
            let v = match kinds[c] {
                Col::Plain => col_json(row, c),
                Col::Num => col_num(row, c),
                Col::Doc => crate::questions::parse_json_opt(col_text(row, c)),
            };
            assert(v@ == cell_json(kinds@[c as int], val_view(row@[c as int])));
            es.push(crate::json::entry(names[c], v));
            c = c + 1;
        }
        proof {
            crate::json::lemma_object_view(es);
            assert(rs[i as int] == args_view(row@));
            assert(crate::json::Json::Object(es)@->Object_0 =~= row_object(names@, kinds@, rs[i as int])->Object_0);
        }
        out.push(crate::json::Json::Object(es));
        i = i + 1;
    }
    proof {
        assert(crate::json::Json::Array(out)@->Array_0 =~= objects_of(names@, kinds@, rs)->Array_0);
    }
    Ok(out)
}


} // verus!
