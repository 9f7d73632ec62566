//! Practice and review: answer records (idempotent by id), FSRS card states
//! checked before they are stored, the wrong-answer book and statistics.
use vstd::prelude::*;
use crate::db::{Db, grew, SqlV, Call, read_of, rows_read, objects_of, committed, no_writes, rolled_back, args_view, val_view, int_read, read_in, ran, is_run, first_text, lemma_ran_grew};
use crate::db::{Col, SqlValue, rows_keyed, db_execute, db_query, query_int, query_exists, query_opt_text, begin, finish, col_json, col_text, col_int, text, opt_text};
use crate::json::{Json, JsonV, entry, json_text_of, int_numeral, lemma_two_fields, lemma_array_view, lemma_object_view};
use crate::text::{cat, cat3, str_eq, str_lt, lex_lt};
use crate::clock::{iso_of, date_of, now_iso, clock_now, fmt_iso, date_text, parse_rfc3339, rfc3339_instant, clamp_business_time};
use crate::ids::{generate_id, is_uuid, uuid_parses};
use crate::text::{is_blank, blank, decimal, decimal_string_wide, digit};
use crate::sync::question_alive;
use crate::questions::{listed_questions, lemma_listed, limit_arg, query_questions, fetch_question, attach_fsrs_states, row_to_question, parse_json_opt, capped_limit, offset_param, nonempty};

verus! {

pub open spec fn is_grade(g: Seq<char>) -> bool {
    g == "again"@ || g == "hard"@ || g == "good"@ || g == "easy"@
}

pub open spec fn is_mode(m: Seq<char>) -> bool {
    m == "practice"@ || m == "review"@ || m == "exam"@
}

/// The grades a mode accepts: `good`/`again` in practice, all four otherwise.
pub open spec fn grade_ok(mode: Seq<char>, g: Seq<char>) -> bool {
    if mode == "practice"@ { g == "good"@ || g == "again"@ } else { is_grade(g) }
}

/// A grade counts as correct.
pub open spec fn correct_spec(g: Seq<char>) -> bool {
    g == "good"@ || g == "easy"@
}

pub fn is_grade_exec(g: &str) -> (r: bool)
    ensures
        r == is_grade(g@),
{
    str_eq(g, "again") || str_eq(g, "hard") || str_eq(g, "good") || str_eq(g, "easy")
}

pub fn is_mode_exec(m: &str) -> (r: bool)
    ensures
        r == is_mode(m@),
{
    str_eq(m, "practice") || str_eq(m, "review") || str_eq(m, "exam")
}

/// `1` when the grade counts as correct, else `0`.
pub fn correct_of(g: &str) -> (r: i64)
    ensures
        r == if correct_spec(g@) { 1int } else { 0 },
{
    if str_eq(g, "good") || str_eq(g, "easy") {
        1
    } else {
        0
    }
}

/// The grade of an answer, which the client decides: required, and one the
/// mode accepts.
pub fn resolve_grade(mode: &str, grade: Option<&str>) -> (r: Result<String, String>)
    ensures
        match grade {
            None => r is Err,
            Some(g) => if grade_ok(mode@, g@) { r matches Ok(s) && s@ == g@ } else { r is Err },
        },
{
    let g = match grade {
        Some(g) => g,
        None => {
            return Err(cat3("grade is required for ", mode, " mode"));
        },
    };
    let ok = if str_eq(mode, "practice") {
        str_eq(g, "good") || str_eq(g, "again")
    } else {
        is_grade_exec(g)
    };
    if !ok {
        return Err(cat3(cat3("invalid grade '", g, "' for ").as_str(), mode, " mode"));
    }
    Ok(g.to_owned())
}

/// A stored answer record, all columns but the sync stamp: question, mode,
/// grade, correct, answered at, elapsed ms, detail JSON, FSRS log JSON.
pub struct StoredRecord {
    pub question_id: String,
    pub mode: String,
    pub grade: String,
    pub correct: i64,
    pub answered_at: String,
    pub elapsed_ms: Option<i64>,
    pub detail_json: Option<String>,
    pub fsrs_log: Option<String>,
}

pub open spec fn oeq(a: Option<String>, b: Option<&str>) -> bool {
    match (a, b) {
        (None, None) => true,
        (Some(x), Some(y)) => x@ == y@,
        _ => false,
    }
}

fn opt_str_eq(a: &Option<String>, b: Option<&str>) -> (r: bool)
    ensures
        r == oeq(*a, b),
{
    match (a, b) {
        (None, None) => true,
        (Some(x), Some(y)) => str_eq(x.as_str(), y),
        _ => false,
    }
}

/// Two records hold the same content (all columns but the sync stamp): the
/// idempotence test of answering and of sync.
pub fn record_content_eq(
    stored: &StoredRecord,
    question_id: &str,
    mode: &str,
    grade: &str,
    correct: i64,
    answered: &str,
    elapsed_ms: Option<i64>,
    detail_json: Option<&str>,
    fsrs_log: Option<&str>,
) -> (r: bool)
    ensures
        r == (stored.question_id@ == question_id@ && stored.mode@ == mode@ && stored.grade@ == grade@
            && stored.correct == correct && stored.answered_at@ == answered@ && stored.elapsed_ms
            == elapsed_ms && oeq(stored.detail_json, detail_json) && oeq(stored.fsrs_log, fsrs_log)),
{
    str_eq(stored.question_id.as_str(), question_id) && str_eq(stored.mode.as_str(), mode) && str_eq(
        stored.grade.as_str(),
        grade,
    ) && stored.correct == correct && str_eq(stored.answered_at.as_str(), answered)
        && stored.elapsed_ms == elapsed_ms && opt_str_eq(&stored.detail_json, detail_json)
        && opt_str_eq(&stored.fsrs_log, fsrs_log)
}

fn text_or_empty(o: Option<String>) -> (r: String)
    ensures
        r@ == match o {
            Some(s) => s@,
            None => Seq::<char>::empty(),
        },
{
    match o {
        Some(s) => s,
        None => String::new(),
    }
}

/// A stored record by id, if there is one.
pub fn stored_record(db: &mut Db, rid: &str) -> (r: Result<Option<StoredRecord>, String>)
    ensures
        grew(old(db).log@, final(db).log@),
        final(db).log@.len() == old(db).log@.len() + 1,
        no_writes(old(db).log@, final(db).log@),
        r matches Ok(Some(sr)) ==> (final(db).log@.last() matches Call::Read { sql: s, rows: Some(rs), .. }
            && s == STORED_RECORD@ && rs.len() > 0 && rs[0].len() == 8 && text_col(rs[0][0]) == sr.question_id@
            && text_col(rs[0][1]) == sr.mode@ && text_col(rs[0][2]) == sr.grade@),
{
    let rows = db_query(
        db,
        STORED_RECORD,
        &vec![text(rid)],
        8,
    )?;
    if rows.len() == 0 {
        return Ok(None);
    }
    let row = &rows[0];
    Ok(
        Some(
            StoredRecord {
                question_id: text_or_empty(col_text(row, 0)),
                mode: text_or_empty(col_text(row, 1)),
                grade: text_or_empty(col_text(row, 2)),
                correct: match col_int(row, 3) {
                    Some(n) => n,
                    None => 0,
                },
                answered_at: text_or_empty(col_text(row, 4)),
                elapsed_ms: col_int(row, 5),
                detail_json: col_text(row, 6),
                fsrs_log: col_text(row, 7),
            },
        ),
    )
}

/// A card state of FSRS-6 as the client computed it. The three real-valued
/// members hold the JSON text of their numbers.
pub struct FsrsCard {
    pub stability: String,
    pub difficulty: String,
    pub reps: i64,
    pub lapses: i64,
    pub state: i64,
    pub learning_steps: i64,
    pub scheduled_days: String,
    pub due_at: String,
    pub last_reviewed_at: Option<String>,
    pub last_result: Option<String>,
}

pub open spec fn is_digit(c: char) -> bool {
    '0' <= c <= '9'
}

/// The digits of a numeral before its exponent are all zero.
pub open spec fn zero_mantissa(t: Seq<char>, i: int) -> bool
    decreases t.len() - i,
{
    if i < 0 || i >= t.len() || t[i] == 'e' || t[i] == 'E' {
        true
    } else {
        (!is_digit(t[i]) || t[i] == '0') && zero_mantissa(t, i + 1)
    }
}

/// The number a text stands for is finite and not below zero: it starts
/// with a digit, or it is a negative zero.
pub open spec fn nonneg_number(t: Seq<char>) -> bool {
    t.len() > 0 && (is_digit(t[0]) || (t[0] == '-' && zero_mantissa(t, 1)))
}

fn zero_mantissa_exec(v: &Vec<char>, start: usize) -> (r: bool)
    ensures
        r == zero_mantissa(v@, start as int),
    decreases v.len() - start,
{
    let mut i = start;
    while i < v.len()
        invariant
            start <= i,
            zero_mantissa(v@, start as int) == zero_mantissa(v@, i as int),
        decreases v.len() - i,
    {
        let c = v[i];
        if c == 'e' || c == 'E' {
            return true;
        }
        if '0' <= c && c <= '9' && c != '0' {
            return false;
        }
        i = i + 1;
    }
    true
}

pub fn nonneg_number_exec(t: &str) -> (r: bool)
    ensures
        r == nonneg_number(t@),
{
    let v = crate::text::chars_of(t);
    if v.len() == 0 {
        return false;
    }
    if '0' <= v[0] && v[0] <= '9' {
        return true;
    }
    v[0] == '-' && zero_mantissa_exec(&v, 1)
}

/// What a valid card satisfies.
pub open spec fn card_ok(c: FsrsCard) -> bool {
    &&& 0 <= c.state <= 3
    &&& nonneg_number(c.stability@)
    &&& nonneg_number(c.difficulty@)
    &&& nonneg_number(c.scheduled_days@)
    &&& c.reps >= 0
    &&& c.lapses >= 0
    &&& c.learning_steps >= 0
    &&& rfc3339_instant(c.due_at@) is Some
    &&& (c.last_reviewed_at matches Some(s) ==> rfc3339_instant(s@) is Some)
    &&& (c.last_result matches Some(s) ==> is_grade(s@))
}

fn check_time(v: &str, field: &str) -> (r: Result<(), String>)
    ensures
        r is Ok <==> rfc3339_instant(v@) is Some,
{
    match parse_rfc3339(v) {
        Some(_) => Ok(()),
        None => Err(cat3(cat3("invalid fsrs ", field, ": ").as_str(), v, "")),
    }
}

fn int_text(n: i64) -> (r: String)
    ensures
        r@ == json_text_of(JsonV::Num(int_numeral(n as int))),
{
    Json::from_i64(n).to_text()
}

/// The checks on a card before it is stored; the error names the first
/// member that fails.
pub fn validate_fsrs_card(c: &FsrsCard) -> (r: Result<(), String>)
    ensures
        r is Ok <==> card_ok(*c),
{
    if c.state < 0 || c.state > 3 {
        return Err(cat("invalid fsrs state: ", int_text(c.state).as_str()));
    }
    if !nonneg_number_exec(c.stability.as_str()) {
        return Err(cat("invalid fsrs stability: ", c.stability.as_str()));
    }
    if !nonneg_number_exec(c.difficulty.as_str()) {
        return Err(cat("invalid fsrs difficulty: ", c.difficulty.as_str()));
    }
    if !nonneg_number_exec(c.scheduled_days.as_str()) {
        return Err(cat("invalid fsrs scheduled_days: ", c.scheduled_days.as_str()));
    }
    if c.reps < 0 {
        return Err(cat("invalid fsrs reps: ", int_text(c.reps).as_str()));
    }
    if c.lapses < 0 {
        return Err(cat("invalid fsrs lapses: ", int_text(c.lapses).as_str()));
    }
    if c.learning_steps < 0 {
        return Err(cat("invalid fsrs learning_steps: ", int_text(c.learning_steps).as_str()));
    }
    check_time(c.due_at.as_str(), "due_at")?;
    if let Some(s) = &c.last_reviewed_at {
        check_time(s.as_str(), "last_reviewed_at")?;
    }
    if let Some(g) = &c.last_result {
        if !is_grade_exec(g.as_str()) {
            return Err(cat("invalid fsrs last_result: ", g.as_str()));
        }
    }
    Ok(())
}

/// Stores a card for a question with the time of the review as its
/// business time; an invalid card is refused before anything is written.
pub fn fsrs_upsert(db: &mut Db, question_id: &str, card: &FsrsCard, occurred_at: &str) -> (r: Result<(), String>)
    ensures
        grew(old(db).log@, final(db).log@),
        !card_ok(*card) ==> r is Err,
        r is Ok ==> ran(final(db).log@, CARD_UPSERT@, card_args(question_id@, *card, SqlV::Text(occurred_at@))),
        final(db).log@ == old(db).log@ || (final(db).log@.len() == old(db).log@.len() + 1
            && (final(db).log@.last() matches Call::Run { args: x, .. } && x.len() == 12)),
{
    validate_fsrs_card(card)?;
    let args = vec![
            text(question_id),
            SqlValue::Text(card.due_at.clone()),
            SqlValue::Text(card.stability.clone()),
            SqlValue::Text(card.difficulty.clone()),
            SqlValue::Int(card.reps),
            SqlValue::Int(card.lapses),
            SqlValue::Int(card.state),
            SqlValue::Int(card.learning_steps),
            SqlValue::Text(card.scheduled_days.clone()),
            opt_text(&card.last_result),
            opt_text(&card.last_reviewed_at),
            text(occurred_at),
        ];
    assert(args_view(args@) =~= card_args(question_id@, *card, SqlV::Text(occurred_at@)));
    db_execute(db, CARD_UPSERT, &args)?;
    assert(is_run(db.log@.last(), CARD_UPSERT@, card_args(question_id@, *card, SqlV::Text(occurred_at@))));
    Ok(())
}

/// Writes a card state, replacing the question's stored one.
pub const CARD_UPSERT: &'static str = "INSERT INTO review_state (question_id, due_at, stability, difficulty, reps, lapses, state, learning_steps, scheduled_days, last_result, last_reviewed_at, updated_at)
         VALUES (?1, ?2, ?3, ?4, ?5, ?6, ?7, ?8, ?9, ?10, ?11, ?12)
         ON CONFLICT(question_id) DO UPDATE SET
           due_at = excluded.due_at,
           stability = excluded.stability,
           difficulty = excluded.difficulty,
           reps = excluded.reps,
           lapses = excluded.lapses,
           state = excluded.state,
           learning_steps = excluded.learning_steps,
           scheduled_days = excluded.scheduled_days,
           last_result = excluded.last_result,
           last_reviewed_at = excluded.last_reviewed_at,
           updated_at = excluded.updated_at";

/// Puts a question back into the wrong-answer book.
pub const UNDISMISS: &'static str = "UPDATE wrong_dismiss SET is_dismissed = 0, updated_at = ?2, synced_at = ?3
         WHERE question_id = ?1";

/// Stores an answer record unless its id is stored already.
pub const RECORD_INSERT: &'static str = "INSERT OR IGNORE INTO practice_records (id, question_id, mode, grade, correct, answered_at, elapsed_ms, detail_json, fsrs_log, synced_at)
             VALUES (?1, ?2, ?3, ?4, ?5, ?6, ?7, ?8, ?9, ?10)";

/// The stored record of an id.
pub const STORED_RECORD: &'static str = "SELECT question_id, mode, grade, correct, answered_at, elapsed_ms, detail_json, fsrs_log
         FROM practice_records WHERE id = ?1";

/// The update time of a question's card state.
pub const CARD_TIME: &'static str = "SELECT updated_at FROM review_state WHERE question_id = ?1";

/// The parameters of a card-state write: the question, the card's fields,
/// and the time of the answer as its update time.
pub open spec fn card_args(q: Seq<char>, c: FsrsCard, at: SqlV) -> Seq<SqlV> {
    seq![
        SqlV::Text(q),
        SqlV::Text(c.due_at@),
        SqlV::Text(c.stability@),
        SqlV::Text(c.difficulty@),
        SqlV::Int(c.reps),
        SqlV::Int(c.lapses),
        SqlV::Int(c.state),
        SqlV::Int(c.learning_steps),
        SqlV::Text(c.scheduled_days@),
        match c.last_result { Some(t) => SqlV::Text(t@), None => SqlV::Null },
        match c.last_reviewed_at { Some(t) => SqlV::Text(t@), None => SqlV::Null },
        at,
    ]
}

/// The journal put question `q` back into the wrong-answer book at `at`.
pub open spec fn undismissed(log: Seq<Call>, q: Seq<char>, at: SqlV) -> bool {
    exists|k: int| 0 <= k < log.len() && undismiss_call(#[trigger] log[k], q, at)
}

/// The call put question `q` back into the wrong-answer book at `at`.
pub open spec fn undismiss_call(c: Call, q: Seq<char>, at: SqlV) -> bool {
    c matches Call::Run { sql: s, args: a, .. } && s == UNDISMISS@ && a.len() == 3 && a[0] == SqlV::Text(q) && a[1] == at
}

/// The call read question `q`'s card time, and the journal wrote card `c`
/// where the answer's was newer.
pub open spec fn card_read_call(log: Seq<Call>, x: Call, q: Seq<char>, c: FsrsCard, at: SqlV) -> bool {
    x matches Call::Read { sql: s, args: a, rows: Some(rs) } && s == CARD_TIME@ && a == seq![SqlV::Text(q)]
        && (card_newer(rs, at) ==> ran(log, CARD_UPSERT@, card_args(q, c, at)))
}

/// An answer's card replaces the stored one: the question had none, or an
/// older one than the answer's time.
pub open spec fn card_newer(rs: Seq<Seq<SqlV>>, at: SqlV) -> bool {
    match at {
        SqlV::Text(t) => match first_text(rs) {
            None => true,
            Some(u) => lex_lt(u, t),
        },
        _ => false,
    }
}

/// After position `p`, the journal read the question's card time, and wrote
/// the answer's card where it was newer.
pub open spec fn card_followed(log: Seq<Call>, p: int, q: Seq<char>, c: FsrsCard, at: SqlV) -> bool {
    exists|k: int| p < k < log.len() && card_read_call(log, #[trigger] log[k], q, c, at)
}

/// A text column's value, `""` when it is not text.
pub open spec fn text_col(v: SqlV) -> Seq<char> {
    match v {
        SqlV::Text(t) => t,
        _ => Seq::empty(),
    }
}

/// The call found a stored record for an id, of the answer's question, mode
/// and grade.
pub open spec fn stored_hit(c: Call, it: RecordItem) -> bool {
    &&& c matches Call::Read { sql: s, rows: Some(rs), .. }
    &&& s == STORED_RECORD@ && rs.len() > 0 && rs[0].len() == 8
    &&& text_col(rs[0][0]) == it.question_id@ && text_col(rs[0][1]) == it.mode@
    &&& it.grade matches Some(g) && text_col(rs[0][2]) == g@
}

/// What a batch of answers ran from position `from` of the journal: each
/// answer as `answer_effect` says at its insert's position, and an answer
/// whose question was alive went without an insert only where a stored
/// record of its id was found.
pub open spec fn answers_ran(log: Seq<Call>, from: int, items: Seq<RecordItem>, alive: Seq<bool>, pos: Seq<int>) -> bool {
    &&& pos.len() == items.len()
    &&& alive.len() == items.len()
    &&& forall|k: int| 0 <= k < items.len() ==> answer_effect(log, from, items[k], #[trigger] pos[k])
    &&& forall|k: int| 0 <= k < items.len() && alive[k] && #[trigger] pos[k] < 0 ==>
        exists|j: int| from <= j < log.len() && stored_hit(#[trigger] log[j], items[k])
    &&& forall|k: int| 0 <= k < items.len() && !alive[k] ==> #[trigger] pos[k] < 0
    &&& undismiss_ok(log, from, pos)
}

/// A record insert before position `k` marked its answer wrong and names
/// the question `q`.
pub open spec fn wrong_insert_before(log: Seq<Call>, pos: Seq<int>, k: int, q: SqlV) -> bool {
    exists|i: int| 0 <= i < pos.len() && 0 <= #[trigger] pos[i] < k && (log[pos[i]] matches Call::Run { args: a, .. }
        && a.len() == 10 && a[4] == SqlV::Int(0) && a[1] == q)
}

/// The call puts a question back into the wrong-answer book.
pub open spec fn is_undismiss(c: Call) -> bool {
    c matches Call::Run { sql: s, args: x, .. } && s == UNDISMISS@ && x.len() == 3
}

/// From position `from` on, every question put back into the wrong-answer
/// book had a record marked wrong inserted before.
pub open spec fn undismiss_ok(log: Seq<Call>, from: int, pos: Seq<int>) -> bool {
    forall|k: int| from <= k < log.len() && is_undismiss(#[trigger] log[k]) ==>
        wrong_insert_before(log, pos, k, log[k]->Run_args[0])
}

proof fn lemma_undismiss_extend(a: Seq<Call>, b: Seq<Call>, from: int, pos: Seq<int>)
    requires
        0 <= from,
        undismiss_ok(a, from, pos),
        no_undismiss(a, b),
        forall|i: int| 0 <= i < pos.len() ==> #[trigger] pos[i] < a.len(),
    ensures
        undismiss_ok(b, from, pos),
{
    assert forall|k: int| from <= k < b.len() && is_undismiss(#[trigger] b[k]) implies
        wrong_insert_before(b, pos, k, b[k]->Run_args[0]) by {
        assert(k < a.len());
        assert(b[k] == a[k]);
        assert(is_undismiss(a[k]));
        assert(wrong_insert_before(a, pos, k, a[k]->Run_args[0]));
        let i = choose|i: int| 0 <= i < pos.len() && 0 <= #[trigger] pos[i] < k && (a[pos[i]] matches Call::Run { args: x, .. }
            && x.len() == 10 && x[4] == SqlV::Int(0) && x[1] == a[k]->Run_args[0]);
        assert(b[pos[i]] == a[pos[i]]);
    }
}

/// From `a` to `b` no question was put back into the wrong-answer book.
pub open spec fn no_undismiss(a: Seq<Call>, b: Seq<Call>) -> bool {
    &&& grew(a, b)
    &&& forall|k: int| a.len() <= k < b.len() ==> !is_undismiss(#[trigger] b[k])
}

proof fn lemma_nu_of_nw(a: Seq<Call>, b: Seq<Call>)
    requires
        no_writes(a, b),
    ensures
        no_undismiss(a, b),
{
    assert forall|k: int| a.len() <= k < b.len() implies !is_undismiss(#[trigger] b[k]) by {
        assert(!(b[k] is Run));
    }
}

proof fn lemma_nu_trans(a: Seq<Call>, b: Seq<Call>, c: Seq<Call>)
    requires
        no_undismiss(a, b),
        no_undismiss(b, c),
    ensures
        no_undismiss(a, c),
{
    assert forall|k: int| a.len() <= k < c.len() implies !is_undismiss(#[trigger] c[k]) by {
        if k < b.len() {
            assert(c[k] == b[k]);
        }
    }
}

proof fn lemma_undismiss_step(a: Seq<Call>, b: Seq<Call>, from: int, pos: Seq<int>, p: int)
    requires
        0 <= from,
        undismiss_ok(a, from, pos),
        grew(a, b),
        b.len() == a.len() + 1,
        is_undismiss(b.last()),
        0 <= p < a.len(),
        a[p] matches Call::Run { args: x, .. } && x.len() == 10 && x[4] == SqlV::Int(0) && x[1] == b.last()->Run_args[0],
        pos.len() > 0 && pos.last() == p,
        forall|i: int| 0 <= i < pos.len() ==> #[trigger] pos[i] < a.len(),
    ensures
        undismiss_ok(b, from, pos),
{
    assert forall|k: int| from <= k < b.len() && is_undismiss(#[trigger] b[k]) implies
        wrong_insert_before(b, pos, k, b[k]->Run_args[0]) by {
        assert(b[p] == a[p]);
        if k < a.len() {
            assert(b[k] == a[k]);
            assert(is_undismiss(a[k]));
            assert(wrong_insert_before(a, pos, k, a[k]->Run_args[0]));
            let i = choose|i: int| 0 <= i < pos.len() && 0 <= #[trigger] pos[i] < k && (a[pos[i]] matches Call::Run { args: x, .. }
                && x.len() == 10 && x[4] == SqlV::Int(0) && x[1] == a[k]->Run_args[0]);
            assert(b[pos[i]] == a[pos[i]]);
        } else {
            assert(k == a.len());
            let i = pos.len() - 1;
            assert(pos[i] == p);
        }
    }
}

proof fn lemma_undismiss_pos_push(log: Seq<Call>, from: int, pos: Seq<int>, p: int)
    requires
        undismiss_ok(log, from, pos),
    ensures
        undismiss_ok(log, from, pos.push(p)),
{
    let pos2 = pos.push(p);
    assert forall|k: int| from <= k < log.len() && is_undismiss(#[trigger] log[k]) implies
        wrong_insert_before(log, pos2, k, log[k]->Run_args[0]) by {
        let i = choose|i: int| 0 <= i < pos.len() && 0 <= #[trigger] pos[i] < k && (log[pos[i]] matches Call::Run { args: x, .. }
            && x.len() == 10 && x[4] == SqlV::Int(0) && x[1] == log[k]->Run_args[0]);
        assert(pos2[i] == pos[i]);
    }
}

/// The first `n` answers ran as `answers_ran` says.
pub open spec fn answers_upto(log: Seq<Call>, from: int, items: Seq<RecordItem>, alive: Seq<bool>, pos: Seq<int>, n: int) -> bool {
    &&& forall|k: int| 0 <= k < n ==> answer_effect(log, from, items[k], #[trigger] pos[k])
    &&& forall|k: int| 0 <= k < n && alive[k] && #[trigger] pos[k] < 0 ==>
        exists|j: int| from <= j < log.len() && stored_hit(#[trigger] log[j], items[k])
    &&& forall|k: int| 0 <= k < n && !alive[k] ==> #[trigger] pos[k] < 0
}

/// What answering `it` ran, where its record insert stands at position `p`
/// of the journal (none where `p < 0`): the insert names the question and
/// the mode; when it added a row, a wrong answer put the question back into
/// the wrong-answer book and a card was written where it was newer.
pub open spec fn answer_effect(log: Seq<Call>, from: int, it: RecordItem, p: int) -> bool {
    p >= 0 ==> {
        &&& from <= p < log.len()
        &&& log[p] matches Call::Run { sql: s, args: a, done: d }
        &&& s == RECORD_INSERT@ && a.len() == 10
        &&& a[1] == SqlV::Text(it.question_id@) && a[2] == SqlV::Text(it.mode@)
        &&& it.grade matches Some(g) && a[3] == SqlV::Text(g@) && a[4] == SqlV::Int(if correct_spec(g@) { 1 } else { 0 })
        &&& (d matches Some(n) && n > 0) ==> {
            &&& a[4] == SqlV::Int(0) ==> undismissed(log, it.question_id@, a[5])
            &&& it.card matches Some(c) ==> card_followed(log, p, it.question_id@, c, a[5])
        }
    }
}

/// Law: each record that answering inserts (`record_answer_impl` states
/// `answers_ran` of its journal) carries the answer's grade and is marked
/// correct (`1`) exactly when that grade is `good` or `easy`, and wrong (`0`)
/// otherwise; a wrong answer that added a row put its question back into the
/// wrong-answer book.
pub proof fn law_answer_correct_flag(log: Seq<Call>, from: int, items: Seq<RecordItem>, alive: Seq<bool>, pos: Seq<int>, k: int)
    requires
        answers_ran(log, from, items, alive, pos),
        0 <= k < items.len(),
        pos[k] >= 0,
    ensures
        0 <= pos[k] < log.len(),
        log[pos[k]] matches Call::Run { sql: s, args: a, done: d } && s == RECORD_INSERT@ && a.len() == 10 && ({
            let g = items[k].grade->Some_0@;
            &&& items[k].grade is Some
            &&& a[3] == SqlV::Text(g)
            &&& (a[4] == SqlV::Int(1)) == (g == "good"@ || g == "easy"@)
            &&& (a[4] == SqlV::Int(0)) == !(g == "good"@ || g == "easy"@)
            &&& (d matches Some(n) && n > 0 && !(g == "good"@ || g == "easy"@)) ==> undismissed(log, items[k].question_id@, a[5])
        }),
{
    assert(answer_effect(log, from, items[k], pos[k]));
}

/// Law: answering puts a question back into the wrong-answer book only after
/// inserting, for that question, a record of an answer graded neither
/// `good` nor `easy`: a correct answer never brings a question back.
pub proof fn law_undismiss_only_after_wrong(log: Seq<Call>, from: int, items: Seq<RecordItem>, alive: Seq<bool>, pos: Seq<int>, k: int)
    requires
        answers_ran(log, from, items, alive, pos),
        from <= k < log.len(),
        log[k] matches Call::Run { sql: s, args: x, .. } && s == UNDISMISS@ && x.len() == 3,
    ensures
        exists|i: int| 0 <= i < items.len() && 0 <= #[trigger] pos[i] < k && ({
            let g = items[i].grade->Some_0@;
            &&& items[i].grade is Some
            &&& !(g == "good"@ || g == "easy"@)
            &&& log[pos[i]] matches Call::Run { sql: s, args: a, .. } && s == RECORD_INSERT@
                && a[1] == SqlV::Text(items[i].question_id@) && a[1] == log[k]->Run_args[0]
        }),
{
    assert(is_undismiss(log[k]));
    let i = choose|i: int| 0 <= i < pos.len() && 0 <= #[trigger] pos[i] < k && (log[pos[i]] matches Call::Run { args: a, .. }
        && a.len() == 10 && a[4] == SqlV::Int(0) && a[1] == log[k]->Run_args[0]);
    assert(answer_effect(log, from, items[i], pos[i]));
}

/// Law: an answer to a live question that inserted no record was a repeat:
/// a stored record of its id was read back, for the same question, mode and
/// grade (answering twice stores one record; a different content is
/// refused).
pub proof fn law_skipped_answer_is_repeat(log: Seq<Call>, from: int, items: Seq<RecordItem>, alive: Seq<bool>, pos: Seq<int>, k: int)
    requires
        answers_ran(log, from, items, alive, pos),
        0 <= k < items.len(),
        alive[k],
        pos[k] < 0,
    ensures
        items[k].grade is Some,
        exists|j: int| from <= j < log.len() && (#[trigger] log[j] matches Call::Read { sql: s, rows: Some(rs), .. } && ({
            let same = |v: SqlV, t: Seq<char>| v == SqlV::Text(t) || (!(v is Text) && t.len() == 0);
            &&& s == STORED_RECORD@ && rs.len() > 0 && rs[0].len() == 8
            &&& same(rs[0][0], items[k].question_id@)
            &&& same(rs[0][1], items[k].mode@)
            &&& same(rs[0][2], items[k].grade->Some_0@)
        })),
{
    let j = choose|j: int| from <= j < log.len() && stored_hit(#[trigger] log[j], items[k]);
    assert(stored_hit(log[j], items[k]));
}

proof fn lemma_answer_effect_grew(a: Seq<Call>, b: Seq<Call>, from: int, it: RecordItem, p: int)
    requires
        grew(a, b),
        answer_effect(a, from, it, p),
    ensures
        answer_effect(b, from, it, p),
{
    if p >= 0 {
        assert(b[p] == a[p]);
        let q = it.question_id@;
        if let Call::Run { sql: _, args: args, done: Some(n) } = a[p] {
            if n > 0 {
                if args[4] == SqlV::Int(0) {
                    let k = choose|k: int| 0 <= k < a.len() && undismiss_call(#[trigger] a[k], q, args[5]);
                    assert(b[k] == a[k]);
                }
                if let Some(c) = it.card {
                    let k = choose|k: int| p < k < a.len() && card_read_call(a, #[trigger] a[k], q, c, args[5]);
                    assert(b[k] == a[k]);
                    if let Call::Read { sql: _, args: _, rows: Some(rs) } = a[k] {
                        if card_newer(rs, args[5]) {
                            lemma_ran_grew(a, b, CARD_UPSERT@, card_args(q, c, args[5]));
                        }
                    }
                }
            }
        }
    }
}

/// One answer as the client reports it.
pub struct RecordItem {
    /// The client's record id (offline idempotence): a UUID when given.
    pub id: Option<String>,
    pub question_id: String,
    pub mode: String,
    pub grade: Option<String>,
    /// When the answer happened; absent means now, the future is clamped.
    pub answered_at: Option<String>,
    pub elapsed_ms: Option<i64>,
    pub detail: Option<Json>,
    /// The card state the client computed for this answer.
    pub card: Option<FsrsCard>,
    /// The review log of this answer, stored as it is.
    pub fsrs_log: Option<Json>,
}

/// What every item of an accepted batch satisfies.
pub open spec fn item_ok(it: RecordItem) -> bool {
    &&& is_mode(it.mode@)
    &&& (it.grade matches Some(g) && grade_ok(it.mode@, g@))
}

/// An item that is answered into the store (its question is alive): a
/// client id, when it is given and not blank, must be a UUID, and a time,
/// when given and not blank, must be one chrono reads.
pub open spec fn answer_ok(it: RecordItem, alive: bool) -> bool {
    &&& item_ok(it)
    &&& alive ==> client_id_ok(it.id)
    &&& alive ==> answer_time_ok(it.answered_at)
}

/// A client id, when given and not blank, is a UUID.
pub open spec fn client_id_ok(id: Option<String>) -> bool {
    match id {
        Some(s) => blank(s@) || uuid_parses(s@),
        None => true,
    }
}

/// A time, when given and not blank, is one chrono reads.
pub open spec fn answer_time_ok(t: Option<String>) -> bool {
    match t {
        Some(x) => blank(x@) || rfc3339_instant(x@) is Some,
        None => true,
    }
}

/// The checks on one answer that need no store: mode, grade and, for an
/// answer whose question is alive, the client id.
pub fn answer_check(it: &RecordItem, alive: bool) -> (r: Result<(), String>)
    ensures
        r is Ok <==> item_ok(*it) && (alive ==> client_id_ok(it.id)),
{
    if !is_mode_exec(it.mode.as_str()) {
        return Err(cat("invalid mode: ", it.mode.as_str()));
    }
    let _ = resolve_grade(it.mode.as_str(), as_opt_str(&it.grade))?;
    if alive {
        if let Some(s) = &it.id {
            if !is_blank(s.as_str()) && !is_uuid(s.as_str()) {
                return Err(cat("invalid record id: ", s.as_str()));
            }
        }
    }
    Ok(())
}

/// How many of the flags are false.
pub open spec fn count_false(a: Seq<bool>) -> nat
    decreases a.len(),
{
    if a.len() == 0 {
        0
    } else {
        count_false(a.drop_last()) + if a.last() { 0nat } else { 1nat }
    }
}

/// Marks a question's wrong-book entry as not dismissed again, when there is
/// one, with the time of the answer as business time.
pub fn undismiss_wrong(db: &mut Db, question_id: &str, occurred_at: &str) -> (r: Result<(), String>)
    ensures
        grew(old(db).log@, final(db).log@),
        r is Ok ==> undismissed(final(db).log@, question_id@, SqlV::Text(occurred_at@)),
        final(db).log@ == old(db).log@ || (final(db).log@.len() == old(db).log@.len() + 1
            && (final(db).log@.last() matches Call::Run { args: x, .. } && x.len() == 3 && x[0] == SqlV::Text(question_id@))),
{
    let now = now_iso()?;
    let args = vec![text(question_id), text(occurred_at), SqlValue::Text(now)];
    assert(args_view(args@)[0] == SqlV::Text(question_id@) && args_view(args@)[1] == SqlV::Text(occurred_at@));
    db_execute(db, UNDISMISS, &args)?;
    assert(db.log@[db.log@.len() - 1] == db.log@.last());
    Ok(())
}

/// Takes a question out of the wrong-answer book (idempotent; a question
/// that does not exist is left alone).
pub fn dismiss_wrong(db: &mut Db, question_id: &str) -> (r: Result<(), String>)
    ensures
        grew(old(db).log@, final(db).log@),
        r is Ok ==> final(db).log@.len() > old(db).log@.len() && dismissal_ran(final(db).log@, old(db).log@.len() as int, question_id@),
{
    let args = vec![text(question_id)];
    assert(args_view(args@) =~= seq![SqlV::Text(question_id@)]);
    let ghost n0 = db.log@.len() as int;
    if !query_exists(db, QUESTION_EXISTS, &args)? {
        return Ok(());
    }
    let now = now_iso()?;
    let ghost lr = db.log@;
    let dargs = vec![text(question_id), SqlValue::Text(now)];
    assert(args_view(dargs@)[0] == SqlV::Text(question_id@));
    db_execute(db, DISMISS, &dargs)?;
    proof {
        let l = db.log@;
        assert(l[n0] == lr[n0]);
        assert(dismiss_call(l[l.len() - 1], question_id@));
    }
    Ok(())
}

/// Whether a question row exists.
pub const QUESTION_EXISTS: &'static str = "SELECT 1 FROM questions WHERE id = ?1";

/// Takes a question out of the wrong-answer book.
pub const DISMISS: &'static str = "INSERT INTO wrong_dismiss (question_id, is_dismissed, updated_at, dismissed_at, synced_at)
         VALUES (?1, 1, ?2, ?2, ?2)
         ON CONFLICT(question_id) DO UPDATE SET
           is_dismissed = 1, updated_at = excluded.updated_at,
           dismissed_at = excluded.dismissed_at, synced_at = excluded.synced_at";

/// The call dismissed question `q`.
pub open spec fn dismiss_call(c: Call, q: Seq<char>) -> bool {
    c matches Call::Run { sql: s, args: a, .. } && s == DISMISS@ && a.len() == 2 && a[0] == SqlV::Text(q)
}

/// From position `from`, the journal looked the question up and, where it
/// exists, dismissed it.
pub open spec fn dismissal_ran(log: Seq<Call>, from: int, q: Seq<char>) -> bool {
    &&& log[from] matches Call::Read { sql: s, args: a, rows: Some(rs) }
    &&& s == QUESTION_EXISTS@ && a == seq![SqlV::Text(q)]
    &&& rs.len() > 0 ==> exists|k: int| from < k < log.len() && dismiss_call(#[trigger] log[k], q)
}

fn opt_json_text(o: &Option<Json>) -> (r: Option<String>)
    ensures
        match o {
            Some(v) => r matches Some(t) && t@ == json_text_of(v@),
            None => r is None,
        },
{
    match o {
        Some(v) => Some(v.to_text()),
        None => None,
    }
}

fn as_opt_str(o: &Option<String>) -> (r: Option<&str>)
    ensures
        match o {
            Some(s) => r matches Some(t) && t@ == s@,
            None => r is None,
        },
{
    match o {
        Some(s) => Some(s.as_str()),
        None => None,
    }
}

/// Records a batch of answers in one transaction. An invalid mode or grade,
/// a client id that is not a UUID, an unreadable time, or an id already
/// stored with a different content fails the whole batch; an answer to a
/// question that no longer exists is skipped, one already stored is left.
/// A wrong answer puts the question back into the wrong-answer book; a card
/// is stored only for a new answer newer than the stored card.
/// `{inserted, skipped}`.
pub fn record_answer_impl(db: &mut Db, items: &Vec<RecordItem>) -> (r: Result<Json, String>)
    ensures
        grew(old(db).log@, final(db).log@),
        r is Ok ==> forall|i: int| 0 <= i < items.len() ==> item_ok(#[trigger] items@[i]),
        r matches Ok(j) ==> exists|alive: Seq<bool>| #[trigger] answers_accepted(j@, items@, alive),
        r matches Ok(j) ==> exists|alive: Seq<bool>, pos: Seq<int>|
            answers_accepted(j@, items@, alive) && #[trigger] answers_ran(final(db).log@, old(db).log@.len() + 1int, items@, alive, pos),
        r is Ok ==> committed(final(db).log@),
        r is Err ==> no_writes(old(db).log@, final(db).log@) || rolled_back(final(db).log@),
{
    begin(db)?;
    let ghost from = db.log@.len() as int;
    let body = record_answer_tx(db, items);
    let ghost lb = db.log@;
    let r = finish(db, body);
    proof {
        if r is Ok {
            let j = r->Ok_0;
            let (alive, pos) = choose|alive: Seq<bool>, pos: Seq<int>|
                answers_accepted(j@, items@, alive) && #[trigger] answers_ran(lb, from, items@, alive, pos);
            assert(answers_upto(lb, from, items@, alive, pos, items.len() as int));
            lemma_answers_upto_grew(lb, db.log@, from, items@, alive, pos, items.len() as int);
            assert(answers_ran(db.log@, from, items@, alive, pos));
        }
    }
    r
}

/// `{inserted, skipped}`: skipped counts the answers whose question is gone,
/// and inserted stays within the rest.
pub open spec fn answer_counts(j: JsonV, items: Seq<RecordItem>, alive: Seq<bool>) -> bool {
    exists|a: nat|
        a + count_false(alive) <= items.len() && j.field("inserted"@) == Some(JsonV::Num(#[trigger] decimal(a))) && j.field(
            "skipped"@,
        ) == Some(JsonV::Num(decimal(count_false(alive))))
}

/// An accepted batch: every answer passes `answer_ok`, given for each whether
/// its question is alive in the store, and the counts are as `answer_counts` says.
pub open spec fn answers_accepted(j: JsonV, items: Seq<RecordItem>, alive: Seq<bool>) -> bool {
    &&& alive.len() == items.len()
    &&& forall|k: int| 0 <= k < items.len() ==> answer_ok(#[trigger] items[k], alive[k])
    &&& answer_counts(j, items, alive)
}

proof fn lemma_answers_upto_grew(a: Seq<Call>, b: Seq<Call>, from: int, items: Seq<RecordItem>, alive: Seq<bool>, pos: Seq<int>, n: int)
    requires
        0 <= from,
        grew(a, b),
        answers_upto(a, from, items, alive, pos, n),
    ensures
        answers_upto(b, from, items, alive, pos, n),
{
    assert forall|k: int| 0 <= k < n implies answer_effect(b, from, items[k], #[trigger] pos[k]) by {
        lemma_answer_effect_grew(a, b, from, items[k], pos[k]);
    }
    assert forall|k: int| 0 <= k < n && alive[k] && #[trigger] pos[k] < 0 implies
        exists|j: int| from <= j < b.len() && stored_hit(#[trigger] b[j], items[k]) by {
        let j = choose|j: int| from <= j < a.len() && stored_hit(#[trigger] a[j], items[k]);
        assert(b[j] == a[j]);
    }
}

/// Extending the answers by one whose effect holds keeps them as said.
proof fn lemma_answers_push(log: Seq<Call>, from: int, items: Seq<RecordItem>, alive: Seq<bool>, pos: Seq<int>, n: int, al: bool, p: int)
    requires
        0 <= n < items.len(),
        alive.len() == n,
        pos.len() == n,
        answers_upto(log, from, items, alive, pos, n),
        answer_effect(log, from, items[n], p),
        al && p < 0 ==> exists|j: int| from <= j < log.len() && stored_hit(#[trigger] log[j], items[n]),
        !al ==> p < 0,
    ensures
        answers_upto(log, from, items, alive.push(al), pos.push(p), n + 1),
{
    let al2 = alive.push(al);
    let pos2 = pos.push(p);
    assert forall|k: int| 0 <= k < n + 1 implies answer_effect(log, from, items[k], #[trigger] pos2[k]) by {
        if k < n {
            assert(pos2[k] == pos[k]);
        }
    }
    assert forall|k: int| 0 <= k < n + 1 && al2[k] && #[trigger] pos2[k] < 0 implies
        exists|j: int| from <= j < log.len() && stored_hit(#[trigger] log[j], items[k]) by {
        if k < n {
            assert(pos2[k] == pos[k] && al2[k] == alive[k]);
        }
    }
    assert forall|k: int| 0 <= k < n + 1 && !al2[k] implies #[trigger] pos2[k] < 0 by {
        if k < n {
            assert(pos2[k] == pos[k] && al2[k] == alive[k]);
        }
    }
}

/// Whether an answer's card state replaces the stored one: where the
/// question has none, or the stored one was updated before the answer.
pub fn card_is_newer(stored_updated_at: &Option<String>, answered_at: &str) -> (r: bool)
    ensures
        r == match stored_updated_at {
            None => true,
            Some(u) => lex_lt(u@, answered_at@),
        },
{
    match stored_updated_at {
        None => true,
        Some(u) => str_lt(u.as_str(), answered_at),
    }
}

fn record_answer_tx(db: &mut Db, items: &Vec<RecordItem>) -> (r: Result<Json, String>)
    ensures
        grew(old(db).log@, final(db).log@),
        r is Ok ==> forall|i: int| 0 <= i < items.len() ==> item_ok(#[trigger] items@[i]),
        r matches Ok(j) ==> exists|alive: Seq<bool>| #[trigger] answers_accepted(j@, items@, alive),
        r matches Ok(j) ==> exists|alive: Seq<bool>, pos: Seq<int>|
            answers_accepted(j@, items@, alive) && #[trigger] answers_ran(final(db).log@, old(db).log@.len() as int, items@, alive, pos),
{
    let mut inserted: u64 = 0;
    let mut skipped: u64 = 0;
    let ghost mut al: Seq<bool> = seq![];
    let ghost mut pos: Seq<int> = seq![];
    let ghost from = db.log@.len() as int;
    let mut i: usize = 0;
    while i < items.len()
        invariant
            grew(old(db).log@, db.log@),
            0 <= i <= items.len(),
            al.len() == i,
            inserted + skipped <= i,
            skipped == count_false(al),
            forall|j: int| 0 <= j < i ==> item_ok(#[trigger] items@[j]),
            forall|j: int| 0 <= j < i ==> answer_ok(#[trigger] items@[j], al[j]),
            pos.len() == i,
            from == old(db).log@.len(),
            answers_upto(db.log@, from, items@, al, pos, i as int),
            undismiss_ok(db.log@, from, pos),
            forall|j: int| 0 <= j < pos.len() ==> #[trigger] pos[j] < db.log@.len(),
        decreases items.len() - i,
    {
        let ghost ls = db.log@;
        let ghost al0 = al;
        let ghost pos0 = pos;
        let item = &items[i];
        if !is_mode_exec(item.mode.as_str()) {
            return Err(cat("invalid mode: ", item.mode.as_str()));
        }
        let grade = resolve_grade(item.mode.as_str(), as_opt_str(&item.grade))?;
        let correct = correct_of(grade.as_str());
        assert(item_ok(items@[i as int]));
        let alive_r = question_alive(db, item.question_id.as_str());
        proof {
            lemma_nu_of_nw(ls, db.log@);
            lemma_undismiss_extend(ls, db.log@, from, pos0);
        }
        let alive = alive_r?;
        let ghost la = db.log@;
        answer_check(item, alive)?;
        let ghost prev = al;
        proof {
            al = al.push(alive);
            assert(al.drop_last() =~= prev);
        }
        if !alive {
            proof {
                lemma_answers_upto_grew(ls, db.log@, from, items@, al0, pos0, i as int);
                lemma_answers_push(db.log@, from, items@, al0, pos0, i as int, false, -1);
                lemma_undismiss_pos_push(db.log@, from, pos0, -1);
                pos = pos.push(-1);
            }
            skipped = skipped + 1;
            i = i + 1;
            continue;
        }
        let rid = match &item.id {
            Some(s) if !is_blank(s.as_str()) => s.clone(),
            _ => generate_id(),
        };
        let answered = clamp_business_time(as_opt_str(&item.answered_at), "answered_at")?;
        assert(answer_ok(items@[i as int], true));
        let detail = opt_json_text(&item.detail);
        let flog = opt_json_text(&item.fsrs_log);
        let stored_r = stored_record(db, rid.as_str());
        proof {
            lemma_nu_of_nw(la, db.log@);
            lemma_undismiss_extend(la, db.log@, from, pos0);
        }
        let ghost lsr = db.log@;
        match stored_r? {
            Some(stored) => {
                if record_content_eq(
                    &stored,
                    item.question_id.as_str(),
                    item.mode.as_str(),
                    grade.as_str(),
                    correct,
                    answered.as_str(),
                    item.elapsed_ms,
                    as_opt_str(&detail),
                    as_opt_str(&flog),
                ) {
                    proof {
                        let l = db.log@;
                        assert(from <= ls.len());
                        assert(stored_hit(l[l.len() - 1], items@[i as int]));
                        assert(from <= l.len() - 1);
                        lemma_answers_upto_grew(ls, l, from, items@, al0, pos0, i as int);
                        lemma_answers_push(l, from, items@, al0, pos0, i as int, true, -1);
                        lemma_undismiss_pos_push(l, from, pos0, -1);
                        pos = pos.push(-1);
                    }
                    i = i + 1;
                    continue;
                }
                return Err(cat("record id conflict: ", rid.as_str()));
            },
            None => {},
        }
        let now = now_iso()?;
        let ghost p = db.log@.len() as int;
        let ghost qid = item.question_id@;
        let ghost at = SqlV::Text(answered@);
        let args = vec![
                SqlValue::Text(rid),
                SqlValue::Text(item.question_id.clone()),
                SqlValue::Text(item.mode.clone()),
                SqlValue::Text(grade),
                SqlValue::Int(correct),
                SqlValue::Text(answered.clone()),
                match item.elapsed_ms {
                    Some(e) => SqlValue::Int(e),
                    None => SqlValue::Null,
                },
                opt_text(&detail),
                opt_text(&flog),
                SqlValue::Text(now),
            ];
        proof {
            let a = args_view(args@);
            assert(a.len() == 10 && a[1] == SqlV::Text(qid) && a[2] == SqlV::Text(items@[i as int].mode@));
            assert(a[4] == SqlV::Int(correct) && a[5] == at);
        }
        let n = db_execute(db, RECORD_INSERT, &args)?;
        let ghost lp = db.log@;
        proof {
            assert(lp[p] == lp.last());
            assert(!is_undismiss(lp[p]));
            assert(no_undismiss(lsr, lp));
            lemma_undismiss_extend(lsr, lp, from, pos0);
            lemma_undismiss_pos_push(lp, from, pos0, p);
        }
        if n == 0 {
            proof {
                assert(answer_effect(lp, from, items@[i as int], p));
                lemma_answers_upto_grew(ls, lp, from, items@, al0, pos0, i as int);
                lemma_answers_push(lp, from, items@, al0, pos0, i as int, true, p);
                pos = pos.push(p);
            }
            i = i + 1;
            continue;
        }
        inserted = inserted + 1;
        if correct == 0 {
            let u = undismiss_wrong(db, item.question_id.as_str(), answered.as_str());
            proof {
                let l = db.log@;
                if l == lp {
                    assert(no_undismiss(lp, l));
                } else {
                    assert(lp[p] == lp.last());
                    if is_undismiss(l.last()) {
                        lemma_undismiss_step(lp, l, from, pos0.push(p), p);
                    } else {
                        assert(no_undismiss(lp, l));
                        lemma_undismiss_extend(lp, l, from, pos0.push(p));
                    }
                }
            }
            u?;
        }
        let ghost lu = db.log@;
        assert(undismiss_ok(lu, from, pos0.push(p)));
        if let Some(card) = &item.card {
            let cargs = vec![SqlValue::Text(item.question_id.clone())];
            assert(args_view(cargs@) =~= seq![SqlV::Text(qid)]);
            let existing_r = query_opt_text(db, CARD_TIME, &cargs);
            proof {
                lemma_nu_of_nw(lu, db.log@);
                lemma_undismiss_extend(lu, db.log@, from, pos0.push(p));
            }
            let existing = existing_r?;
            let ghost kc = (db.log@.len() - 1) as int;
            let ghost lc = db.log@;
            if card_is_newer(&existing, answered.as_str()) {
                let f = fsrs_upsert(db, item.question_id.as_str(), card, answered.as_str());
                proof {
                    assert(no_undismiss(lc, db.log@));
                    lemma_undismiss_extend(lc, db.log@, from, pos0.push(p));
                }
                f?;
            }
            proof {
                let lf = db.log@;
                assert(lf[kc] == lc[kc]);
                assert(lc[kc] == lc.last());
                assert(card_read_call(lf, lf[kc], qid, *card, at));
                assert(card_followed(lf, p, qid, *card, at));
            }
        }
        proof {
            let lf = db.log@;
            assert(lf[p] == lp[p]);
            if correct == 0 {
                let k = choose|k: int| 0 <= k < lu.len() && undismiss_call(#[trigger] lu[k], qid, at);
                assert(lf[k] == lu[k]);
            }
            assert(answer_effect(lf, from, items@[i as int], p));
            lemma_answers_upto_grew(ls, lf, from, items@, al0, pos0, i as int);
            lemma_answers_push(lf, from, items@, al0, pos0, i as int, true, p);
            pos = pos.push(p);
        }
        i = i + 1;
    }
    let es = vec![entry("inserted", Json::from_u64(inserted)), entry("skipped", Json::from_u64(skipped))];
    proof {
        reveal_strlit("inserted");
        reveal_strlit("skipped");
        assert(es@[0].0@.len() != es@[1].0@.len());
        lemma_two_fields(es);
        assert(answer_counts(Json::Object(es)@, items@, al)) by {
            assert(inserted as nat + skipped as nat <= items.len());
            assert(Json::Object(es)@.field("inserted"@) == Some(JsonV::Num(decimal(inserted as nat))));
            assert(Json::Object(es)@.field("skipped"@) == Some(JsonV::Num(decimal(skipped as nat))));
        }
        assert(answers_accepted(Json::Object(es)@, items@, al));
        assert(answers_ran(db.log@, from, items@, al, pos));
    }
    Ok(Json::Object(es))
}

/// A random draw of questions, optionally of one type and in one bank.
pub const RANDOM_POOL: &'static str = "SELECT id, bank_id, type, version, difficulty, score, status, stem_json, options_json, answer_json, analysis_json, children_json, plain_text, created_at, updated_at FROM questions
         WHERE (?1 IS NULL OR type = ?1)
           AND (?3 IS NULL OR bank_id = ?3)
         ORDER BY RANDOM() LIMIT ?2";

/// Practice questions: the given ids in order (the existing ones, at most
/// 500), else a random draw filtered by type and bank.
pub fn practice_pool_impl(
    db: &mut Db,
    limit: Option<u64>,
    type_filter: Option<String>,
    bank_id: Option<String>,
    ids: Option<Vec<String>>,
) -> (r: Result<Vec<Json>, String>)
    ensures
        grew(old(db).log@, final(db).log@),
        r matches Ok(v) ==> forall|i: int| 0 <= i < v.len() ==> (#[trigger] v@[i])@.is_object(),
        r matches Ok(v) ==> (ids matches Some(x) && (exists|k: int| 0 <= k < x.len() && (#[trigger] x@[k])@.len() > 0)
            ==> v.len() <= 500),
        r matches Ok(v) ==> !(ids matches Some(x) && (exists|k: int| 0 <= k < x.len() && (#[trigger] x@[k])@.len() > 0))
            ==> final(db).log@.len() > old(db).log@.len() && ({
            let c = final(db).log@[old(db).log@.len() as int];
            &&& c matches Call::Read { sql: s, args: a, .. } && s == RANDOM_POOL@ && a.len() == 3
                && a[0] == filter_arg(type_filter) && a[1] == limit_arg(limit, 20) && a[2] == filter_arg(bank_id)
            &&& listed_questions(v@, c)
        }),
{
    let ghost at = db.log@.len();
    let ghost type0 = type_filter;
    let ghost bank0 = bank_id;
    if let Some(ids) = ids {
        let mut wanted: Vec<String> = Vec::new();
        let mut i: usize = 0;
        while i < ids.len()
            invariant
                grew(old(db).log@, db.log@),
                0 <= i <= ids.len(),
                (exists|k: int| 0 <= k < i && (#[trigger] ids@[k])@.len() > 0) <==> wanted.len() > 0,
                db.log@ == old(db).log@,
            decreases ids.len() - i,
        {
            if ids[i].as_str().unicode_len() > 0 {
                wanted.push(ids[i].clone());
            }
            i = i + 1;
        }
        if wanted.len() > 0 {
            let mut out: Vec<Json> = Vec::new();
            let mut i: usize = 0;
            while i < wanted.len() && i < 500
                invariant
                    grew(old(db).log@, db.log@),
                    0 <= i <= wanted.len(),
                    i <= 500,
                    out.len() <= i,
                    forall|j: int| 0 <= j < out.len() ==> (#[trigger] out@[j])@.is_object(),
                decreases wanted.len() - i,
            {
                if let Some(q) = fetch_question(db, wanted[i].as_str())? {
                    out.push(q);
                }
                i = i + 1;
            }
            return Ok(out);
        }
    }
    let limit = capped_limit(limit, 20);
    let type_filter = nonempty(type_filter);
    let bank_id = nonempty(bank_id);
    let args = vec![opt_text(&type_filter), SqlValue::Int(limit), opt_text(&bank_id)];
    let mut out = query_questions(db, RANDOM_POOL, &args)?;
    let ghost c = db.log@.last();
    let ghost first = out;
    attach_fsrs_states(db, &mut out)?;
    proof {
        lemma_listed(first, out, c);
        assert(args_view(args@)[0] == filter_arg(type0));
        assert(args_view(args@)[2] == filter_arg(bank0));
    }
    Ok(out)
}

/// Seconds in a day.
pub open spec fn day_secs() -> int {
    86_400
}

/// The start of the UTC day of an instant, in seconds.
pub open spec fn day_start(secs: int) -> int {
    secs - (secs % day_secs())
}

pub fn day_start_exec(secs: i64) -> (r: i64)
    requires
        secs > i64::MIN + 86_400,
    ensures
        r == day_start(secs as int),
{
    let m = secs % 86_400;
    let m = if m < 0 {
        m + 86_400
    } else {
        m
    };
    assert(m == (secs as int) % 86_400);
    secs - m
}

/// The end of today (UTC) as ISO text: the due cutoff that review and the
/// statistics share.
pub fn end_of_today() -> (r: Result<String, String>)
    ensures
        r matches Ok(t) ==> exists|s: int| s % day_secs() == 0 && #[trigger] iso_of(s, 0) == Some(t@),
{
    let now = clock_now()?;
    if now.0 > i64::MAX - 200_000 || now.0 < i64::MIN + 200_000 {
        return Err("clock out of range".to_owned());
    }
    let start = day_start_exec(now.0);
    let e = start + 86_400;
    assert((e as int) % day_secs() == 0);
    let r = fmt_iso((e, 0));
    proof {
        if let Ok(t) = &r {
            assert(iso_of(e as int, 0) == Some(t@));
        }
    }
    r
}

/// Cards due by the cutoff, earliest first, optionally in one bank.
pub const REVIEW_DUE: &'static str = "SELECT q.id, q.bank_id, q.type, q.version, q.difficulty, q.score, q.status, q.stem_json, q.options_json, q.answer_json, q.analysis_json, q.children_json, q.plain_text, q.created_at, q.updated_at FROM questions q
         JOIN review_state r ON r.question_id = q.id
         WHERE r.due_at <= ?1
           AND (?3 IS NULL OR q.bank_id = ?3)
         ORDER BY r.due_at ASC
         LIMIT ?2";

/// Questions due by the end of today, earliest first, optionally in one bank.
pub fn review_due_impl(db: &mut Db, limit: Option<u64>, bank_id: Option<String>) -> (r: Result<Vec<Json>, String>)
    ensures
        grew(old(db).log@, final(db).log@),
        r matches Ok(v) ==> forall|i: int| 0 <= i < v.len() ==> (#[trigger] v@[i])@.is_object(),
        r matches Ok(v) ==> final(db).log@.len() > old(db).log@.len() && ({
            let c = final(db).log@[old(db).log@.len() as int];
            &&& c matches Call::Read { sql: s, args: a, .. } && s == REVIEW_DUE@ && a.len() == 3
                && a[1] == limit_arg(limit, 20) && a[2] == filter_arg(bank_id)
                && (a[0] matches SqlV::Text(t) && exists|d: int| d % day_secs() == 0 && #[trigger] iso_of(d, 0) == Some(t))
            &&& listed_questions(v@, c)
        }),
{
    let ghost bank0 = bank_id;
    let limit = capped_limit(limit, 20);
    let bank_id = nonempty(bank_id);
    let cutoff = end_of_today()?;
    let ghost at = db.log@.len();
    let args = vec![SqlValue::Text(cutoff), SqlValue::Int(limit), opt_text(&bank_id)];
    let mut out = query_questions(db, REVIEW_DUE, &args)?;
    let ghost c = db.log@.last();
    let ghost first = out;
    attach_fsrs_states(db, &mut out)?;
    proof {
        assert(db.log@[at as int] == c);
        lemma_listed(first, out, c);
        assert(args_view(args@)[2] == filter_arg(bank0));
    }
    Ok(out)
}

/// For each practised question: the run of correct answers counted back from
/// the latest, the number of wrong answers, and the time of the latest.
pub const WRONG_CTE: &'static str = "WITH ranked AS (
  SELECT question_id, correct, answered_at,
         ROW_NUMBER() OVER (PARTITION BY question_id ORDER BY answered_at DESC, id DESC) AS rn
  FROM practice_records
),
streak AS (
  SELECT question_id,
         COALESCE(MIN(CASE WHEN correct = 0 THEN rn END), COUNT(*) + 1) - 1 AS consec_correct,
         SUM(CASE WHEN correct = 0 THEN 1 ELSE 0 END) AS wrong_count,
         MAX(CASE WHEN correct = 0 THEN answered_at END) AS last_wrong_at
  FROM ranked GROUP BY question_id
)";

/// The wrong-book streaks, as a common table expression.
pub fn wrong_ranked_cte() -> (r: &'static str)
    ensures
        r@ == WRONG_CTE@,
{
    WRONG_CTE
}

/// In the book: fewer consecutive correct answers than the threshold, at
/// least one wrong answer, not dismissed, in the bank and of the type asked.
pub const WRONG_WHERE: &'static str = "streak.consec_correct < ?3
  AND streak.wrong_count > 0
  AND NOT EXISTS (SELECT 1 FROM wrong_dismiss d WHERE d.question_id = q.id AND d.is_dismissed = 1)
  AND (?1 IS NULL OR q.bank_id = ?1) AND (?2 IS NULL OR q.type = ?2)";

/// What keeps a question in the wrong book.
pub fn wrong_where() -> (r: &'static str)
    ensures
        r@ == WRONG_WHERE@,
{
    WRONG_WHERE
}

/// The threshold of consecutive correct answers that takes a question out
/// of the book: 1 by default, kept within 1..=10.
pub fn leave_after(n: Option<u64>) -> (r: i64)
    ensures
        r == match n {
            Some(k) => if k < 1 { 1 } else if k > 10 { 10 } else { k as int },
            None => 1,
        },
{
    match n {
        Some(k) => if k < 1 {
            1
        } else if k > 10 {
            10
        } else {
            k as i64
        },
        None => 1,
    }
}

/// An item of the wrong-answer book: a question object with its mistakes.
pub open spec fn wrong_item_ok(q: JsonV) -> bool {
    &&& q.is_object()
    &&& q.field("wrong_count"@) is Some
    &&& q.field("last_wrong_at"@) is Some
    &&& q.field("last_wrong_detail"@) is Some
}

/// Counts the questions in the wrong book (between the streaks and the
/// condition).
pub const WRONG_COUNT_MID: &'static str = " SELECT COUNT(*) FROM questions q JOIN streak ON streak.question_id = q.id WHERE ";

/// Lists the questions in the wrong book with their mistakes (between the
/// streaks and the condition).
pub const WRONG_LIST_MID: &'static str = " SELECT q.id, q.bank_id, q.type, q.version, q.difficulty, q.score, q.status, q.stem_json, q.options_json, q.answer_json, q.analysis_json, q.children_json, q.plain_text, q.created_at, q.updated_at, streak.wrong_count AS wrong_count, streak.last_wrong_at AS last_wrong_at,
         (SELECT p.detail_json FROM practice_records p
          WHERE p.question_id = q.id AND p.correct = 0 ORDER BY p.answered_at DESC, p.id DESC LIMIT 1) AS last_wrong_detail
         FROM questions q JOIN streak ON streak.question_id = q.id
         WHERE ";

/// The order and page of the wrong-book list.
pub const WRONG_LIST_TAIL: &'static str = " ORDER BY streak.last_wrong_at DESC
         LIMIT ?4 OFFSET ?5";

/// The threshold parameter: consecutive correct answers that leave the book,
/// 1 to 10, 1 by default.
pub open spec fn leave_arg(n: Option<u64>) -> i64 {
    match n {
        Some(k) => if k < 1 { 1 } else if k > 10 { 10 } else { k as i64 },
        None => 1,
    }
}

/// The offset parameter: the given offset as far as `i64` reaches, else 0.
pub open spec fn offset_arg(offset: Option<u64>) -> i64 {
    match offset {
        Some(o) => if o <= i64::MAX as u64 { o as i64 } else { i64::MAX },
        None => 0,
    }
}

/// The wrong-answer book, latest mistake first: `{total, items}`, each item
/// a question with `wrong_count`, `last_wrong_at` and `last_wrong_detail`.
pub fn wrong_list_impl(
    db: &mut Db,
    bank_id: Option<String>,
    type_filter: Option<String>,
    limit: Option<u64>,
    offset: Option<u64>,
    leave_after_correct: Option<u64>,
) -> (r: Result<Json, String>)
    ensures
        grew(old(db).log@, final(db).log@),
        r matches Ok(j) ==> {
            &&& j@.field("total"@) matches Some(JsonV::Num(_))
            &&& j@.field("items"@) matches Some(JsonV::Array(a))
            &&& forall|i: int| 0 <= i < a.len() ==> wrong_item_ok(#[trigger] a[i])
        },
        r matches Ok(j) ==> final(db).log@.len() == old(db).log@.len() + 2 && ({
            let n = old(db).log@.len() as int;
            let l = final(db).log@;
            let w = seq![filter_arg(bank_id), filter_arg(type_filter), SqlV::Int(leave_arg(leave_after_correct))];
            &&& exists|t: i64| #[trigger] int_read(l[n], WRONG_CTE@ + WRONG_COUNT_MID@ + WRONG_WHERE@, w, t)
                && j@.field("total"@) == Some(JsonV::Num(int_numeral(t as int)))
            &&& read_of(l[n + 1], WRONG_CTE@ + WRONG_LIST_MID@ + WRONG_WHERE@ + WRONG_LIST_TAIL@,
                w + seq![limit_arg(limit, 50), SqlV::Int(offset_arg(offset))])
            &&& j@.field("items"@) matches Some(JsonV::Array(a)) && a.len() == rows_read(l[n + 1]).len()
        }),
{
    let ghost bank0 = bank_id;
    let ghost type0 = type_filter;
    let ghost limit0 = limit;
    let ghost offset0 = offset;
    let bank_id = nonempty(bank_id);
    let type_filter = nonempty(type_filter);
    let limit = capped_limit(limit, 50);
    let offset = offset_param(offset);
    let leave = leave_after(leave_after_correct);
    let count_sql = cat3(wrong_ranked_cte(), WRONG_COUNT_MID, wrong_where());
    let cargs = vec![opt_text(&bank_id), opt_text(&type_filter), SqlValue::Int(leave)];
    let ghost n = db.log@.len() as int;
    let total = crate::db::query_int(db, count_sql.as_str(), &cargs)?;
    let sql = cat(cat3(wrong_ranked_cte(), WRONG_LIST_MID, wrong_where()).as_str(), WRONG_LIST_TAIL);
    let largs = vec![opt_text(&bank_id), opt_text(&type_filter), SqlValue::Int(leave), SqlValue::Int(limit), SqlValue::Int(offset)];
    let rows = db_query(db, sql.as_str(), &largs, 18)?;
    proof {
        let w = seq![filter_arg(bank0), filter_arg(type0), SqlV::Int(leave_arg(leave_after_correct))];
        assert(args_view(cargs@) =~= w);
        assert(args_view(largs@) =~= w + seq![limit_arg(limit0, 50), SqlV::Int(offset_arg(offset0))]);
        assert(int_read(db.log@[n], WRONG_CTE@ + WRONG_COUNT_MID@ + WRONG_WHERE@, w, total));
    }
    let ghost l2 = db.log@;
    let mut items: Vec<Json> = Vec::new();
    let mut i: usize = 0;
    while i < rows.len()
        invariant
            grew(old(db).log@, db.log@),
            0 <= i <= rows.len(),
            forall|j: int| 0 <= j < rows.len() ==> (#[trigger] rows@[j]).len() == 18,
            items.len() == i,
            forall|j: int| 0 <= j < i ==> wrong_item_ok(#[trigger] items@[j]@),
        decreases rows.len() - i,
    {
        let row = &rows[i];
        let mut base: Vec<SqlValue> = Vec::new();
        let mut c: usize = 0;
        while c < 15
            invariant
                grew(old(db).log@, db.log@),
                0 <= c <= 15,
                row.len() == 18,
                base.len() == c,
            decreases 15 - c,
        {
            base.push(copy_value(&row[c]));
            c = c + 1;
        }
        let mut q = row_to_question(&base);
        q.set("wrong_count", col_json(row, 15));
        q.set("last_wrong_at", col_json(row, 16));
        q.set("last_wrong_detail", parse_json_opt(col_text(row, 17)));
        proof {
            reveal_strlit("wrong_count");
            reveal_strlit("last_wrong_at");
            reveal_strlit("last_wrong_detail");
            assert("wrong_count"@.len() != "last_wrong_at"@.len());
            assert("wrong_count"@.len() != "last_wrong_detail"@.len());
            assert("last_wrong_at"@.len() != "last_wrong_detail"@.len());
        }
        items.push(q);
        i = i + 1;
    }
    proof {
        lemma_array_view(items);
        assert(l2 == db.log@);
    }
    let es = vec![entry("total", Json::from_i64(total)), entry("items", Json::Array(items))];
    proof {
        reveal_strlit("total");
        reveal_strlit("items");
        assert(es@[0].0@[0] != es@[1].0@[0]);
        lemma_two_fields(es);
    }
    Ok(Json::Object(es))
}

fn copy_value(v: &SqlValue) -> (r: SqlValue)
    ensures
        match (r, *v) {
            (SqlValue::Null, SqlValue::Null) => true,
            (SqlValue::Int(a), SqlValue::Int(b)) => a == b,
            (SqlValue::Text(a), SqlValue::Text(b)) => a@ == b@,
            (SqlValue::Blob(a), SqlValue::Blob(b)) => a@ == b@,
            _ => false,
        },
{
    match v {
        SqlValue::Null => SqlValue::Null,
        SqlValue::Int(n) => SqlValue::Int(*n),
        SqlValue::Text(t) => SqlValue::Text(t.clone()),
        SqlValue::Blob(b) => SqlValue::Blob(b.clone()),
    }
}

/// Answers per day: date, count, correct ones, mean time; latest first.
pub const OVERVIEW_DAYS: &'static str = "SELECT substr(answered_at, 1, 10) AS d, COUNT(*), COALESCE(SUM(correct), 0),
         CAST(ROUND(COALESCE(AVG(elapsed_ms), 0)) AS INTEGER) FROM practice_records
         GROUP BY d ORDER BY d DESC LIMIT ?1";

/// Answers per question type: type, count, correct ones, mean time; most
/// answered first.
pub const OVERVIEW_TYPES: &'static str = "SELECT q.type, COUNT(*), COALESCE(SUM(p.correct), 0), CAST(ROUND(COALESCE(AVG(p.elapsed_ms), 0)) AS INTEGER)
         FROM practice_records p JOIN questions q ON q.id = p.question_id
         GROUP BY q.type ORDER BY COUNT(*) DESC";

/// The number of days shown: the given one below 1000, else 1000; 365 by
/// default.
pub open spec fn days_arg(limit_days: Option<u64>) -> i64 {
    match limit_days {
        Some(l) => if l < 1000 { l as i64 } else { 1000 },
        None => 365,
    }
}

/// Practice by day (latest first, at most `limit_days`, default 365, capped
/// at 1000) and by question type (most practised first), with counts, correct
/// answers and the rounded mean time: `{days, by_type}`.
pub fn records_overview_impl(db: &mut Db, limit_days: Option<u64>) -> (r: Result<Json, String>)
    ensures
        grew(old(db).log@, final(db).log@),
        r matches Ok(j) ==> rows_keyed(j@.field("days"@), seq!["date", "count", "correct", "avg_ms"])
            && rows_keyed(j@.field("by_type"@), seq!["type", "count", "correct", "avg_ms"]),
        r matches Ok(j) ==> final(db).log@.len() == old(db).log@.len() + 2 && ({
            let n = old(db).log@.len() as int;
            let l = final(db).log@;
            &&& read_of(l[n], OVERVIEW_DAYS@, seq![SqlV::Int(days_arg(limit_days))])
            &&& read_of(l[n + 1], OVERVIEW_TYPES@, seq![])
            &&& j@.field("days"@) == Some(objects_of(seq!["date", "count", "correct", "avg_ms"], seq![Col::Plain, Col::Plain, Col::Plain, Col::Plain], rows_read(l[n])))
            &&& j@.field("by_type"@) == Some(objects_of(seq!["type", "count", "correct", "avg_ms"], seq![Col::Plain, Col::Plain, Col::Plain, Col::Plain], rows_read(l[n + 1])))
        }),
{
    let limit = match limit_days {
        Some(l) => if l < 1000 {
            l as i64
        } else {
            1000
        },
        None => 365,
    };
    let dn = vec!["date", "count", "correct", "avg_ms"];
    let tn = vec!["type", "count", "correct", "avg_ms"];
    let kinds = vec![Col::Plain, Col::Plain, Col::Plain, Col::Plain];
    let dargs = vec![SqlValue::Int(limit)];
    let targs: Vec<SqlValue> = vec![];
    proof {
        assert(dn@ =~= seq!["date", "count", "correct", "avg_ms"] && tn@ =~= seq!["type", "count", "correct", "avg_ms"]);
        assert(kinds@ =~= seq![Col::Plain, Col::Plain, Col::Plain, Col::Plain]);
        assert(args_view(dargs@) =~= seq![SqlV::Int(days_arg(limit_days))]);
        assert(args_view(targs@) =~= Seq::<SqlV>::empty());
    }
    let ghost n = db.log@.len() as int;
    let days = crate::db::rows_as_objects(db, OVERVIEW_DAYS, &dargs, &dn, &kinds)?;
    let ghost l1 = db.log@;
    let by_type = crate::db::rows_as_objects(db, OVERVIEW_TYPES, &targs, &tn, &kinds)?;
    let es = vec![entry("days", Json::Array(days)), entry("by_type", Json::Array(by_type))];
    proof {
        reveal_strlit("days");
        reveal_strlit("by_type");
        assert(es@[0].0@.len() != es@[1].0@.len());
        lemma_two_fields(es);
        assert(db.log@[n] == l1[n]);
    }
    Ok(Json::Object(es))
}

/// The correct rate in tenths of a percent, rounded half up:
/// `round(1000 * correct / total)`.
pub open spec fn rate_tenths(correct: int, total: int) -> int {
    (2000 * correct + total) / (2 * total)
}

/// The text of `x / 10` with one decimal.
pub open spec fn tenths_text(x: nat) -> Seq<char> {
    decimal(x / 10) + seq!['.'] + seq![digit(x % 10)]
}

/// The correct rate as a JSON number with one decimal, `null` without answers.
pub fn correct_rate(correct: i64, total: i64) -> (r: Json)
    requires
        0 <= correct,
        0 <= total,
    ensures
        total == 0 ==> r@ == JsonV::Null,
        total > 0 ==> r@ == JsonV::Num(tenths_text(rate_tenths(correct as int, total as int) as nat)),
{
    if total == 0 {
        return Json::Null;
    }
    let c = correct as u128;
    let t = total as u128;
    assert(2000 * c + t <= 2001 * 0x8000_0000_0000_0000) by (nonlinear_arith)
        requires c < 0x8000_0000_0000_0000, t < 0x8000_0000_0000_0000;
    let q = (2000 * c + t) / (2 * t);
    assert(q == rate_tenths(correct as int, total as int));
    let whole = decimal_string_wide(q / 10);
    let d = decimal_string_wide(q % 10);
    proof {
        assert(q % 10 < 10);
        reveal_with_fuel(decimal, 2);
        reveal_strlit(".");
    }
    let t = crate::text::cat3(whole.as_str(), ".", d.as_str());
    assert(t@ =~= tenths_text(q as nat));
    Json::Num(t)
}

fn count_of(db: &mut Db, sql: &str, args: &Vec<SqlValue>) -> (r: Result<i64, String>)
    ensures
        grew(old(db).log@, final(db).log@),
        final(db).log@.len() == old(db).log@.len() + 1,
        r matches Ok(n) ==> int_read(final(db).log@.last(), sql@, args_view(args@), n),
        r matches Ok(n) ==> n >= 0,
{
    let n = crate::db::query_int(db, sql, args)?;
    if n < 0 {
        return Err("negative count".to_owned());
    }
    Ok(n)
}

/// An integer column's value, `0` when it is not an integer.
pub open spec fn int_or_zero(v: SqlV) -> i64 {
    match v {
        SqlV::Int(n) => n,
        _ => 0,
    }
}

/// The answer count and correct count of the day `key` among the first `n`
/// rows of the per-day query (date, count, correct): those of the last row
/// of that date, `(0, 0)` when there is none.
pub open spec fn day_counts_upto(rows: Seq<Seq<SqlV>>, key: Seq<char>, n: int) -> (i64, i64)
    decreases n,
{
    if n <= 0 || n > rows.len() {
        (0, 0)
    } else if rows[n - 1][0] == SqlV::Text(key) {
        (int_or_zero(rows[n - 1][1]), int_or_zero(rows[n - 1][2]))
    } else {
        day_counts_upto(rows, key, n - 1)
    }
}

/// The counts of the day `key` in the rows of the per-day query.
pub open spec fn day_counts(rows: Seq<Seq<SqlV>>, key: Seq<char>) -> (i64, i64) {
    day_counts_upto(rows, key, rows.len() as int)
}

/// The entry of the day `date`: `{date, count, correct}` with the day's
/// counts from the rows of the per-day query.
pub open spec fn day_entry_ok(e: JsonV, rows: Seq<Seq<SqlV>>, date: Option<Seq<char>>) -> bool {
    &&& date is Some
    &&& e.field_text("date"@) == date
    &&& e.field("count"@) == Some(JsonV::Num(int_numeral(day_counts(rows, date->Some_0).0 as int)))
    &&& e.field("correct"@) == Some(JsonV::Num(int_numeral(day_counts(rows, date->Some_0).1 as int)))
}

/// Law: a day's entry of the seven-day trend shows, for its date, the count
/// and the correct count of the row the per-day query returned for that date,
/// and zero for both when the query returned no row of that date.
pub proof fn law_day_entry_counts(e: JsonV, rows: Seq<Seq<SqlV>>, key: Seq<char>, j: int, n: i64, m: i64)
    requires
        day_entry_ok(e, rows, Some(key)),
        forall|i: int| 0 <= i < rows.len() ==> (#[trigger] rows[i]).len() == 3,
        0 <= j < rows.len(),
        rows[j][0] == SqlV::Text(key) && rows[j][1] == SqlV::Int(n) && rows[j][2] == SqlV::Int(m),
        forall|i: int| 0 <= i < rows.len() && i != j ==> (#[trigger] rows[i])[0] != SqlV::Text(key),
    ensures
        e.field("count"@) == Some(JsonV::Num(int_numeral(n as int))),
        e.field("correct"@) == Some(JsonV::Num(int_numeral(m as int))),
{
    lemma_day_counts_one(rows, key, j, rows.len() as int);
}

/// Law: a day with no row in the per-day query shows zero answers and zero
/// correct ones.
pub proof fn law_day_entry_empty(e: JsonV, rows: Seq<Seq<SqlV>>, key: Seq<char>)
    requires
        day_entry_ok(e, rows, Some(key)),
        forall|i: int| 0 <= i < rows.len() ==> (#[trigger] rows[i])[0] != SqlV::Text(key),
    ensures
        e.field("count"@) == Some(JsonV::Num(int_numeral(0))),
        e.field("correct"@) == Some(JsonV::Num(int_numeral(0))),
{
    lemma_day_counts_none(rows, key, rows.len() as int);
}

proof fn lemma_day_counts_none(rows: Seq<Seq<SqlV>>, key: Seq<char>, n: int)
    requires
        n <= rows.len(),
        forall|i: int| 0 <= i < rows.len() ==> (#[trigger] rows[i])[0] != SqlV::Text(key),
    ensures
        day_counts_upto(rows, key, n) == (0i64, 0i64),
    decreases n,
{
    if n > 0 {
        assert(rows[n - 1][0] != SqlV::Text(key));
        lemma_day_counts_none(rows, key, n - 1);
    }
}

proof fn lemma_day_counts_one(rows: Seq<Seq<SqlV>>, key: Seq<char>, j: int, n: int)
    requires
        j < n <= rows.len(),
        0 <= j,
        rows[j][0] == SqlV::Text(key),
        forall|i: int| 0 <= i < rows.len() && i != j ==> (#[trigger] rows[i])[0] != SqlV::Text(key),
    ensures
        day_counts_upto(rows, key, n) == (int_or_zero(rows[j][1]), int_or_zero(rows[j][2])),
    decreases n,
{
    if n - 1 != j {
        assert(rows[n - 1][0] != SqlV::Text(key));
        lemma_day_counts_one(rows, key, j, n - 1);
    }
}

/// The counts of one day: `{date, count, correct}`, zero when the day has
/// no rows.
fn day_entry(days: &Vec<Vec<SqlValue>>, key: &String) -> (r: Json)
    requires
        forall|j: int| 0 <= j < days.len() ==> (#[trigger] days@[j]).len() == 3,
    ensures
        day_entry_ok(r@, crate::db::rows_view(days@), Some(key@)),
{
    let ghost rs = crate::db::rows_view(days@);
    let mut cnt: i64 = 0;
    let mut cok: i64 = 0;
    let mut i: usize = 0;
    while i < days.len()
        invariant
            0 <= i <= days.len(),
            forall|j: int| 0 <= j < days.len() ==> (#[trigger] days@[j]).len() == 3,
            rs == crate::db::rows_view(days@),
            (cnt, cok) == day_counts_upto(rs, key@, i as int),
        decreases days.len() - i,
    {
        assert(rs[i as int] == args_view(days@[i as int]@));
        assert(rs[i as int][0] == val_view(days@[i as int]@[0]));
        assert(rs[i as int][1] == val_view(days@[i as int]@[1]));
        assert(rs[i as int][2] == val_view(days@[i as int]@[2]));
        if let Some(d) = col_text(&days[i], 0) {
            if str_eq(d.as_str(), key.as_str()) {
                cnt = match col_int(&days[i], 1) {
                    Some(n) => n,
                    None => 0,
                };
                cok = match col_int(&days[i], 2) {
                    Some(n) => n,
                    None => 0,
                };
            }
        }
        i = i + 1;
    }
    let es = vec![entry("date", Json::Str(key.clone())), entry("count", Json::from_i64(cnt)), entry("correct", Json::from_i64(cok))];
    proof {
        lemma_object_view(es);
        reveal_strlit("date");
        reveal_strlit("count");
        reveal_strlit("correct");
        let o = Json::Object(es)@->Object_0;
        assert(o[0] == (es@[0].0@, es@[0].1@));
        assert(o[1] == (es@[1].0@, es@[1].1@));
        assert(o[2] == (es@[2].0@, es@[2].1@));
        assert(o[0].0.len() == 4 && o[1].0.len() == 5 && o[2].0.len() == 7);
        reveal_with_fuel(crate::json::lookup, 4);
    }
    Json::Object(es)
}

/// The question types counted by the statistics.
pub open spec fn has_type_counts(bt: JsonV) -> bool {
    &&& bt.is_object()
    &&& bt.field("single"@) is Some
    &&& bt.field("multi"@) is Some
    &&& bt.field("judge"@) is Some
    &&& bt.field("fill"@) is Some
    &&& bt.field("short"@) is Some
    &&& bt.field("material"@) is Some
}

/// A correct rate: `null`, or a number with one decimal.
pub open spec fn rate_ok(v: JsonV) -> bool {
    v is Null || exists|x: nat| v == JsonV::Num(#[trigger] tenths_text(x))
}

/// What the statistics answer: the counts, the six type counts, the correct
/// rate, and seven entries for seven consecutive UTC days.
pub open spec fn stats_shape(j: JsonV) -> bool {
    &&& j.field("total"@) matches Some(JsonV::Num(_))
    &&& j.field("by_type"@) matches Some(bt) && has_type_counts(bt)
    &&& j.field("due_total"@) matches Some(JsonV::Num(_))
    &&& j.field("due_today"@) matches Some(JsonV::Num(_))
    &&& j.field("learning_due"@) matches Some(JsonV::Num(_))
    &&& j.field("practiced_total"@) matches Some(JsonV::Num(_))
    &&& j.field("practiced_today"@) matches Some(JsonV::Num(_))
    &&& j.field("correct_rate"@) matches Some(v) && rate_ok(v)
    &&& j.field("records_7d"@) matches Some(w) && week_ok(w)
}

/// Seven entries, for the seven UTC days from the day that starts at `s`.
pub open spec fn week_from(a: Seq<JsonV>, s: int) -> bool {
    &&& a.len() == 7
    &&& s % day_secs() == 0
    &&& forall|k: int| 0 <= k < 7 ==> (#[trigger] a[k]).field_text("date"@) == date_of(s + k * day_secs())
}

/// Seven entries, for seven consecutive UTC days.
pub open spec fn week_ok(w: JsonV) -> bool {
    w matches JsonV::Array(a) && exists|s: int| #[trigger] week_from(a, s)
}

/// Questions of the scope.
pub const STATS_TOTAL: &'static str = "SELECT COUNT(*) FROM questions WHERE (?1 IS NULL OR bank_id = ?1)";

/// Cards of the scope due by `?1`.
pub const STATS_DUE: &'static str = "SELECT COUNT(*) FROM review_state r JOIN questions q ON q.id = r.question_id
         WHERE r.due_at <= ?1 AND (?2 IS NULL OR q.bank_id = ?2)";

/// Learning and relearning cards of the scope due by `?1`.
pub const STATS_LEARNING: &'static str = "SELECT COUNT(*) FROM review_state r JOIN questions q ON q.id = r.question_id
         WHERE r.due_at <= ?1 AND r.state IN (1, 3) AND (?2 IS NULL OR q.bank_id = ?2)";

/// Answers to questions of the scope.
pub const STATS_PRACTICED: &'static str = "SELECT COUNT(*) FROM practice_records p JOIN questions q ON q.id = p.question_id
         WHERE (?1 IS NULL OR q.bank_id = ?1)";

/// Answers to questions of the scope since `?1`.
pub const STATS_TODAY: &'static str = "SELECT COUNT(*) FROM practice_records p JOIN questions q ON q.id = p.question_id
         WHERE p.answered_at >= ?1 AND (?2 IS NULL OR q.bank_id = ?2)";

/// Answers counted for the correct rate.
pub const STATS_REC_TOTAL: &'static str = "SELECT COUNT(*) FROM practice_records p
         JOIN questions q ON q.id = p.question_id WHERE (?1 IS NULL OR q.bank_id = ?1)";

/// Correct answers counted for the correct rate.
pub const STATS_REC_CORRECT: &'static str = "SELECT COALESCE(SUM(p.correct), 0) FROM practice_records p
         JOIN questions q ON q.id = p.question_id WHERE (?1 IS NULL OR q.bank_id = ?1)";

/// A filter parameter: the text given when it is not empty, else `NULL`
/// (no filtering).
pub open spec fn filter_arg(given: Option<String>) -> SqlV {
    match given {
        Some(t) => if t@.len() > 0 { SqlV::Text(t@) } else { SqlV::Null },
        None => SqlV::Null,
    }
}

/// Each count of the statistics is what its query returned, every query
/// scoped by `bank`: cards due by the ISO time of `now` and by the end of
/// its UTC day, learning cards due by that end, answers since the start of
/// that day, and the totals.
pub open spec fn stats_reads(log: Seq<Call>, from: int, c: StatCounts, bank: SqlV, now: (int, int)) -> bool {
    let start = day_start(now.0);
    let nt = SqlV::Text(iso_of(now.0, now.1)->Some_0);
    let et = SqlV::Text(iso_of(start + day_secs(), 0)->Some_0);
    let st = SqlV::Text(iso_of(start, 0)->Some_0);
    &&& iso_of(now.0, now.1) is Some && iso_of(start + day_secs(), 0) is Some && iso_of(start, 0) is Some
    &&& read_in(log, from, STATS_TOTAL@, seq![bank], c.total)
    &&& read_in(log, from, STATS_DUE@, seq![nt, bank], c.due_total)
    &&& read_in(log, from, STATS_DUE@, seq![et, bank], c.due_today)
    &&& read_in(log, from, STATS_LEARNING@, seq![et, bank], c.learning_due)
    &&& read_in(log, from, STATS_PRACTICED@, seq![bank], c.practiced_total)
    &&& read_in(log, from, STATS_TODAY@, seq![st, bank], c.practiced_today)
    &&& read_in(log, from, STATS_REC_TOTAL@, seq![bank], c.rec_total)
    &&& read_in(log, from, STATS_REC_CORRECT@, seq![bank], c.rec_correct)
}

fn args1(b: &SqlValue) -> (r: Vec<SqlValue>)
    ensures
        args_view(r@) == seq![val_view(*b)],
{
    let r = vec![copy_value(b)];
    assert(args_view(r@) =~= seq![val_view(*b)]);
    r
}

fn args2(t: String, b: &SqlValue) -> (r: Vec<SqlValue>)
    ensures
        args_view(r@) == seq![SqlV::Text(t@), val_view(*b)],
{
    let ghost tv = t@;
    let r = vec![SqlValue::Text(t), copy_value(b)];
    assert(args_view(r@) =~= seq![SqlV::Text(tv), val_view(*b)]);
    r
}

/// Questions of the scope per type.
pub const STATS_TYPES: &'static str = "SELECT type, COUNT(*) FROM questions WHERE (?1 IS NULL OR bank_id = ?1) GROUP BY type";

/// One of the six question types the statistics count.
pub open spec fn counted_type(t: Seq<char>) -> bool {
    t == "single"@ || t == "multi"@ || t == "judge"@ || t == "fill"@ || t == "short"@ || t == "material"@
}

/// The count shown for type `t` after the first `n` rows of the per-type
/// query (type, count): the count column of the last row of that type, `0`
/// when there is none.
pub open spec fn type_count_upto(rows: Seq<Seq<SqlV>>, t: Seq<char>, n: int) -> JsonV
    decreases n,
{
    if n <= 0 || n > rows.len() {
        JsonV::Num(int_numeral(0))
    } else if rows[n - 1][0] == SqlV::Text(t) {
        match rows[n - 1][1] {
            SqlV::Text(x) => JsonV::Str(x),
            SqlV::Int(c) => JsonV::Num(int_numeral(c as int)),
            _ => JsonV::Null,
        }
    } else {
        type_count_upto(rows, t, n - 1)
    }
}

/// The call is the per-type query in the scope `bank`, and each of the six
/// types shows its count from the rows it returned.
pub open spec fn types_read(c: Call, bt: JsonV, bank: SqlV) -> bool {
    &&& c matches Call::Read { sql: s, args: a, rows: Some(rs) }
    &&& s == STATS_TYPES@ && a == seq![bank]
    &&& forall|t: Seq<char>| counted_type(t) ==> #[trigger] bt.field(t) == Some(type_count_upto(rs, t, rs.len() as int))
}

/// Law: each of the six types shows the count the per-type query returned
/// for it, and `0` when the query returned no row of that type.
pub proof fn law_type_counts(c: Call, bt: JsonV, bank: SqlV, rs: Seq<Seq<SqlV>>, t: Seq<char>)
    requires
        types_read(c, bt, bank),
        c matches Call::Read { rows: Some(x), .. } && x == rs,
        counted_type(t),
    ensures
        (forall|i: int| 0 <= i < rs.len() ==> (#[trigger] rs[i])[0] != SqlV::Text(t)) ==> bt.field(t) == Some(JsonV::Num(int_numeral(0))),
        forall|j: int, n: i64| 0 <= j < rs.len() && rs[j][0] == SqlV::Text(t) && rs[j][1] == SqlV::Int(n)
            && (forall|i: int| 0 <= i < rs.len() && i != j ==> (#[trigger] rs[i])[0] != SqlV::Text(t))
            ==> bt.field(t) == Some(JsonV::Num(int_numeral(n as int))),
{
    if forall|i: int| 0 <= i < rs.len() ==> (#[trigger] rs[i])[0] != SqlV::Text(t) {
        lemma_type_count_none(rs, t, rs.len() as int);
    }
    assert forall|j: int, n: i64| 0 <= j < rs.len() && rs[j][0] == SqlV::Text(t) && rs[j][1] == SqlV::Int(n)
        && (forall|i: int| 0 <= i < rs.len() && i != j ==> (#[trigger] rs[i])[0] != SqlV::Text(t))
        implies bt.field(t) == Some(JsonV::Num(int_numeral(n as int))) by {
        lemma_type_count_one(rs, t, j, rs.len() as int);
    }
}

proof fn lemma_type_count_none(rows: Seq<Seq<SqlV>>, t: Seq<char>, n: int)
    requires
        n <= rows.len(),
        forall|i: int| 0 <= i < rows.len() ==> (#[trigger] rows[i])[0] != SqlV::Text(t),
    ensures
        type_count_upto(rows, t, n) == JsonV::Num(int_numeral(0)),
    decreases n,
{
    if n > 0 {
        assert(rows[n - 1][0] != SqlV::Text(t));
        lemma_type_count_none(rows, t, n - 1);
    }
}

proof fn lemma_type_count_one(rows: Seq<Seq<SqlV>>, t: Seq<char>, j: int, n: int)
    requires
        0 <= j < n <= rows.len(),
        rows[j][0] == SqlV::Text(t),
        forall|i: int| 0 <= i < rows.len() && i != j ==> (#[trigger] rows[i])[0] != SqlV::Text(t),
    ensures
        type_count_upto(rows, t, n) == type_count_upto(rows, t, j + 1),
    decreases n,
{
    if n - 1 != j {
        assert(rows[n - 1][0] != SqlV::Text(t));
        lemma_type_count_one(rows, t, j, n - 1);
    }
}

/// Answers and correct answers per day of the scope, from a start time.
pub const STATS_DAYS: &'static str = "SELECT substr(p.answered_at, 1, 10) AS d, COUNT(*), COALESCE(SUM(p.correct), 0)
         FROM practice_records p JOIN questions q ON q.id = p.question_id
         WHERE p.answered_at >= ?1 AND (?2 IS NULL OR q.bank_id = ?2)
         GROUP BY d ORDER BY d";

/// The call is the per-day query from the start `s7` of the seven days, in
/// the scope `bank`, and the seven entries are its counts for each day.
pub open spec fn days_read(c: Call, wk: Seq<JsonV>, bank: SqlV, s7: int) -> bool {
    &&& c matches Call::Read { sql: s, args: a, rows: Some(rs) }
    &&& s == STATS_DAYS@ && iso_of(s7, 0) is Some && a == seq![SqlV::Text(iso_of(s7, 0)->Some_0), bank]
    &&& wk.len() == 7
    &&& forall|j: int| 0 <= j < 7 ==> day_entry_ok(#[trigger] wk[j], rs, date_of(s7 + j * day_secs()))
}

/// The seven-day trend is the per-day query's counts, the query run from
/// position `from` of the journal, from six days before the day of `now`.
pub open spec fn week_counts(log: Seq<Call>, from: int, wk: Seq<JsonV>, bank: SqlV, now: (int, int)) -> bool {
    exists|k: int| from <= k < log.len() && #[trigger] days_read(log[k], wk, bank, day_start(now.0) - 6 * day_secs())
}

/// Statistics, for one bank or all: questions in total and by type, cards
/// due now and by the end of today, learning cards due today, answers in
/// total and today, the correct rate, and the last seven days (oldest
/// first, today last).
pub fn review_stats_impl(db: &mut Db, bank_id: Option<String>) -> (r: Result<Json, String>)
    ensures
        grew(old(db).log@, final(db).log@),
        r matches Ok(v) ==> stats_shape(v@),
        r matches Ok(v) ==> exists|c: StatCounts, bt: JsonV, wk: Seq<JsonV>, now: (int, int)|
            0 <= c.rec_correct && 0 <= c.rec_total && #[trigger] stats_view(c, bt, wk) == v@
            && #[trigger] stats_reads(final(db).log@, old(db).log@.len() as int, c, filter_arg(bank_id), now)
            && week_counts(final(db).log@, old(db).log@.len() as int, wk, filter_arg(bank_id), now)
            && exists|k: int| old(db).log@.len() <= k < final(db).log@.len() && #[trigger] types_read(final(db).log@[k], bt, filter_arg(bank_id)),
{
    let ghost bank_id0 = bank_id;
    let bank_id = nonempty(bank_id);
    let b = opt_text(&bank_id);
    let now = clock_now()?;
    if now.0 > i64::MAX - 200_000 || now.0 < i64::MIN + 1_000_000 {
        return Err("clock out of range".to_owned());
    }
    let start_today = day_start_exec(now.0);
    let end_today = start_today + 86_400;
    let start_7d = start_today - 6 * 86_400;
    let ghost l0 = db.log@.len();
    let total = count_of(db, STATS_TOTAL, &args1(&b))?;
    let ghost k1 = (db.log@.len() - 1) as int;
    let ghost c1 = db.log@[k1];
    let tes = vec![
        entry("single", Json::from_i64(0)),
        entry("multi", Json::from_i64(0)),
        entry("judge", Json::from_i64(0)),
        entry("fill", Json::from_i64(0)),
        entry("short", Json::from_i64(0)),
        entry("material", Json::from_i64(0)),
    ];
    proof {
        lemma_object_view(tes);
        reveal_strlit("single");
        reveal_strlit("multi");
        reveal_strlit("judge");
        reveal_strlit("fill");
        reveal_strlit("short");
        reveal_strlit("material");
        let o = Json::Object(tes)@->Object_0;
        assert(o[0] == (tes@[0].0@, tes@[0].1@));
        assert(o[1] == (tes@[1].0@, tes@[1].1@));
        assert(o[2] == (tes@[2].0@, tes@[2].1@));
        assert(o[3] == (tes@[3].0@, tes@[3].1@));
        assert(o[4] == (tes@[4].0@, tes@[4].1@));
        assert(o[5] == (tes@[5].0@, tes@[5].1@));
        assert(o[1].0[0] != o[2].0[0] && o[1].0[0] != o[4].0[0] && o[2].0[0] != o[4].0[0]);
        assert(o[0].0.len() == 6 && o[1].0.len() == 5 && o[3].0.len() == 4 && o[5].0.len() == 8);
        reveal_with_fuel(crate::json::lookup, 7);
    }
    let mut by_type = Json::Object(tes);
    let targs = vec![copy_value(&b)];
    assert(args_view(targs@) =~= seq![val_view(b)]);
    let rows = db_query(db, STATS_TYPES, &targs, 2)?;
    let ghost kt = (db.log@.len() - 1) as int;
    let ghost ct = db.log@[kt];
    let ghost trs = crate::db::rows_view(rows@);
    proof {
        reveal_with_fuel(<Json as View>::view, 1);
        reveal_strlit("single");
        reveal_strlit("multi");
        reveal_strlit("judge");
        reveal_strlit("fill");
        reveal_strlit("short");
        reveal_strlit("material");
    }
    let mut i: usize = 0;
    while i < rows.len()
        invariant
            grew(old(db).log@, db.log@),
            0 <= i <= rows.len(),
            forall|j: int| 0 <= j < rows.len() ==> (#[trigger] rows@[j]).len() == 2,
            has_type_counts(by_type@),
            trs == crate::db::rows_view(rows@),
            forall|t: Seq<char>| counted_type(t) ==> #[trigger] by_type@.field(t) == Some(type_count_upto(trs, t, i as int)),
        decreases rows.len() - i,
    {
        let ghost before = by_type@;
        assert(trs[i as int] == args_view(rows@[i as int]@));
        assert(trs[i as int][0] == val_view(rows@[i as int]@[0]));
        assert(trs[i as int][1] == val_view(rows@[i as int]@[1]));
        if let Some(t) = col_text(&rows[i], 0) {
            if by_type.get(t.as_str()).is_some() {
                by_type.set(t.as_str(), col_json(&rows[i], 1));
            } else {
                assert(!counted_type(t@));
            }
        }
        proof {
            assert forall|u: Seq<char>| counted_type(u) implies #[trigger] by_type@.field(u) == Some(type_count_upto(trs, u, i + 1)) by {
                assert(before.field(u) == Some(type_count_upto(trs, u, i as int)));
            }
        }
        i = i + 1;
    }
    let now_text = fmt_iso(now)?;
    let end_text = fmt_iso((end_today, 0))?;
    let start_text = fmt_iso((start_today, 0))?;
    let start_7d_text = fmt_iso((start_7d, 0))?;
    let due_total = count_of(
        db,
        STATS_DUE,
        &args2(now_text, &b),
    )?;
    let ghost k2 = (db.log@.len() - 1) as int;
    let ghost c2 = db.log@[k2];
    let due_today = count_of(
        db,
        STATS_DUE,
        &args2(end_text.clone(), &b),
    )?;
    let ghost k3 = (db.log@.len() - 1) as int;
    let ghost c3 = db.log@[k3];
    let learning_due = count_of(
        db,
        STATS_LEARNING,
        &args2(end_text, &b),
    )?;
    let ghost k4 = (db.log@.len() - 1) as int;
    let ghost c4 = db.log@[k4];
    let practiced_total = count_of(
        db,
        STATS_PRACTICED,
        &args1(&b),
    )?;
    let ghost k5 = (db.log@.len() - 1) as int;
    let ghost c5 = db.log@[k5];
    let practiced_today = count_of(
        db,
        STATS_TODAY,
        &args2(start_text, &b),
    )?;
    let ghost k6 = (db.log@.len() - 1) as int;
    let ghost c6 = db.log@[k6];
    let rec_total = count_of(
        db,
        STATS_REC_TOTAL,
        &args1(&b),
    )?;
    let ghost k7 = (db.log@.len() - 1) as int;
    let ghost c7 = db.log@[k7];
    let rec_correct = count_of(
        db,
        STATS_REC_CORRECT,
        &args1(&b),
    )?;
    let ghost k8 = (db.log@.len() - 1) as int;
    let ghost c8 = db.log@[k8];
    let rate = correct_rate(rec_correct, rec_total);
    proof {
        if rec_total > 0 {
            let c = rec_correct as int;
            let t = rec_total as int;
            assert(rate_tenths(c, t) >= 0) by (nonlinear_arith)
                requires
                    0 <= c,
                    0 < t,
            ;
            let x = rate_tenths(c, t) as nat;
            assert(rate@ == JsonV::Num(tenths_text(x)));
        }
        assert(rate_ok(rate@));
    }
    let ghost s7t = start_7d_text@;
    let dargs = vec![SqlValue::Text(start_7d_text), copy_value(&b)];
    assert(args_view(dargs@) =~= seq![SqlV::Text(s7t), val_view(b)]);
    let days = db_query(db, STATS_DAYS, &dargs, 3)?;
    let ghost kd = (db.log@.len() - 1) as int;
    let ghost cd = db.log@[kd];
    let ghost drs = crate::db::rows_view(days@);
    let mut records_7d: Vec<Json> = Vec::new();
    let mut k: i64 = 0;
    while k < 7
        invariant
            grew(old(db).log@, db.log@),
            0 <= k <= 7,
            start_7d == start_today - 6 * 86_400,
            start_today > i64::MIN + 800_000,
            start_today < i64::MAX - 100_000,
            forall|j: int| 0 <= j < days.len() ==> (#[trigger] days@[j]).len() == 3,
            records_7d.len() == k,
            forall|j: int| 0 <= j < k ==> (#[trigger] records_7d@[j])@.field_text("date"@) == date_of(start_7d + j * day_secs()),
            forall|j: int| 0 <= j < k ==> day_entry_ok((#[trigger] records_7d@[j])@, drs, date_of(start_7d + j * day_secs())),
            drs == crate::db::rows_view(days@),
            start_today == day_start(now.0 as int),
        decreases 7 - k,
    {
        let key = match date_text(start_7d + k * 86_400) {
            Some(t) => t,
            None => {
                return Err("instant out of range".to_owned());
            },
        };
        let e = day_entry(&days, &key);
        let ghost prev = records_7d@;
        records_7d.push(e);
        proof {
            assert((start_7d + k * 86_400) as int == start_7d + k * day_secs());
            assert(records_7d@[k as int] == e);
            assert forall|j: int| 0 <= j < k + 1 implies day_entry_ok((#[trigger] records_7d@[j])@, drs, date_of(start_7d + j * day_secs())) by {
                if j < k {
                    assert(records_7d@[j] == prev[j]);
                }
            }
        }
        k = k + 1;
    }
    proof {
        lemma_array_view(records_7d);
        assert((start_7d as int) % day_secs() == 0);
        let a = Json::Array(records_7d)@->Array_0;
        assert forall|k: int| 0 <= k < 7 implies (#[trigger] a[k]).field_text("date"@) == date_of(start_7d + k * day_secs()) by {
            assert(a[k] == records_7d@[k]@);
        }
        assert(week_from(a, start_7d as int));
    }
    let counts = StatCounts { total, due_total, due_today, learning_due, practiced_total, practiced_today, rec_correct, rec_total };
    let ghost bt = by_type@;
    let ghost wk = records_7d@.map_values(|x: Json| x@);
    proof {
        assert(Json::Array(records_7d)@->Array_0 =~= wk);
        assert(week_from(wk, start_7d as int));
        assert(week_ok(JsonV::Array(wk)));
        lemma_stats_view_shape(counts, bt, wk);
    }
    proof {
        let log = db.log@;
        let bv = val_view(b);
        assert(bv == filter_arg(bank_id0));
        assert(log[k1] == c1 && log[k2] == c2 && log[k3] == c3 && log[k4] == c4);
        assert(log[k5] == c5 && log[k6] == c6 && log[k7] == c7 && log[k8] == c8);
        assert(stats_reads(log, l0 as int, counts, bv, (now.0 as int, now.1 as int)));
        assert(log[kd] == cd);
        assert(day_start(now.0 as int) - 6 * day_secs() == start_7d as int);
        assert forall|j: int| 0 <= j < 7 implies day_entry_ok(#[trigger] wk[j], drs, date_of(start_7d + j * day_secs())) by {
            assert(wk[j] == records_7d@[j]@);
        }
        assert(days_read(log[kd], wk, bv, start_7d as int));
        assert(log[kt] == ct);
        assert(types_read(log[kt], bt, bv));
        assert(week_counts(log, l0 as int, wk, bv, (now.0 as int, now.1 as int)));
    }
    let out = stats_object(&counts, by_type, records_7d);
    Ok(out)
}

/// The counts the statistics queries return.
pub struct StatCounts {
    pub total: i64,
    pub due_total: i64,
    pub due_today: i64,
    pub learning_due: i64,
    pub practiced_total: i64,
    pub practiced_today: i64,
    pub rec_correct: i64,
    pub rec_total: i64,
}

/// The correct rate of `correct` answers out of `total`: `null` without answers.
pub open spec fn rate_view(correct: int, total: int) -> JsonV {
    if total == 0 {
        JsonV::Null
    } else {
        JsonV::Num(tenths_text(rate_tenths(correct, total) as nat))
    }
}

/// The statistics object made of the counts, the type counts and the week.
pub open spec fn stats_view(c: StatCounts, by_type: JsonV, week: Seq<JsonV>) -> JsonV {
    JsonV::Object(
        seq![
            ("total"@, JsonV::Num(int_numeral(c.total as int))),
            ("by_type"@, by_type),
            ("due_total"@, JsonV::Num(int_numeral(c.due_total as int))),
            ("due_today"@, JsonV::Num(int_numeral(c.due_today as int))),
            ("learning_due"@, JsonV::Num(int_numeral(c.learning_due as int))),
            ("practiced_total"@, JsonV::Num(int_numeral(c.practiced_total as int))),
            ("practiced_today"@, JsonV::Num(int_numeral(c.practiced_today as int))),
            ("correct_rate"@, rate_view(c.rec_correct as int, c.rec_total as int)),
            ("records_7d"@, JsonV::Array(week)),
        ],
    )
}

/// Builds the statistics from what the queries returned: each count as a
/// number, the correct rate of the answers, and the week's entries.
pub fn stats_object(c: &StatCounts, by_type: Json, records_7d: Vec<Json>) -> (r: Json)
    requires
        0 <= c.rec_correct && 0 <= c.rec_total,
    ensures
        r@ == stats_view(*c, by_type@, records_7d@.map_values(|x: Json| x@)),
{
    let ghost bt = by_type@;
    let ghost wk = records_7d@.map_values(|x: Json| x@);
    proof {
        lemma_array_view(records_7d);
        assert(Json::Array(records_7d)@->Array_0 =~= wk);
    }
    let es = vec![
        entry("total", Json::from_i64(c.total)),
        entry("by_type", by_type),
        entry("due_total", Json::from_i64(c.due_total)),
        entry("due_today", Json::from_i64(c.due_today)),
        entry("learning_due", Json::from_i64(c.learning_due)),
        entry("practiced_total", Json::from_i64(c.practiced_total)),
        entry("practiced_today", Json::from_i64(c.practiced_today)),
        entry("correct_rate", correct_rate(c.rec_correct, c.rec_total)),
        entry("records_7d", Json::Array(records_7d)),
    ];
    proof {
        lemma_object_view(es);
        assert(Json::Object(es)@->Object_0 =~= stats_view(*c, bt, wk)->Object_0);
    }
    Json::Object(es)
}

proof fn lemma_stats_view_shape(c: StatCounts, bt: JsonV, wk: Seq<JsonV>)
    requires
        has_type_counts(bt),
        rate_ok(rate_view(c.rec_correct as int, c.rec_total as int)),
        week_ok(JsonV::Array(wk)),
    ensures
        stats_shape(stats_view(c, bt, wk)),
{
    reveal_strlit("total");
    reveal_strlit("by_type");
    reveal_strlit("due_total");
    reveal_strlit("due_today");
    reveal_strlit("learning_due");
    reveal_strlit("practiced_total");
    reveal_strlit("practiced_today");
    reveal_strlit("correct_rate");
    reveal_strlit("records_7d");
    let o = stats_view(c, bt, wk)->Object_0;
    assert(o[0].0.len() == 5 && o[1].0.len() == 7 && o[2].0.len() == 9 && o[3].0.len() == 9);
    assert(o[4].0.len() == 12 && o[5].0.len() == 15 && o[6].0.len() == 15 && o[7].0.len() == 12 && o[8].0.len() == 10);
    assert(o[2].0[6] != o[3].0[6]);
    assert(o[5].0[12] != o[6].0[12]);
    assert(o[4].0[0] != o[7].0[0]);
    reveal_with_fuel(crate::json::lookup, 10);
}

} // verus!
