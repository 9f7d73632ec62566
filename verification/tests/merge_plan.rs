use qbank::merge::{lww_take, SyncRole, Tomb};
use qbank::plan::{plan_merge, MergeInput, MergePlan, QRow};
use qbank::sync::sync_stamp;

fn s(x: &str) -> String {
    x.to_string()
}

fn tomb(deleted: &str, bank: Option<&str>) -> Tomb {
    Tomb { bank_id: bank.map(s), deleted_at: s(deleted), actor: Some(s("t")), synced_at: s(deleted) }
}

fn q(updated: &str, bank: &str) -> QRow {
    QRow { updated_at: s(updated), bank_id: Some(s(bank)) }
}

fn empty(role: SyncRole) -> MergeInput {
    MergeInput {
        role,
        floor: None,
        local_banks: vec![],
        local_questions: vec![],
        local_bank_tombs: vec![],
        local_question_tombs: vec![],
        in_banks: vec![],
        in_questions: vec![],
        in_bank_tombs: vec![],
        in_question_tombs: vec![],
    }
}

fn has(v: &[String], x: &str) -> bool {
    v.iter().any(|y| y == x)
}

fn sorted(v: &[String]) -> Vec<String> {
    let mut w = v.to_vec();
    w.sort();
    w
}

#[test]
fn lww_center_strict_leaf_inclusive() {
    assert!(lww_take("2026-09-11", Some("2026-09-10"), SyncRole::Center));
    assert!(!lww_take("2026-09-10", Some("2026-09-10"), SyncRole::Center));
    assert!(lww_take("2026-09-10", Some("2026-09-10"), SyncRole::Leaf));
    assert!(!lww_take("2026-09-09", Some("2026-09-10"), SyncRole::Leaf));
    assert!(lww_take("2000-01-01", None, SyncRole::Center));
}

#[test]
fn sync_stamp_by_role() {
    assert_eq!(sync_stamp(SyncRole::Center, Some(s("b")), "now"), "now");
    assert_eq!(sync_stamp(SyncRole::Leaf, Some(s("b")), "now"), "b");
    assert_eq!(sync_stamp(SyncRole::Leaf, None, "now"), "now");
}

#[test]
fn plan_tombstone_newer_than_row_deletes() {
    let mut inp = empty(SyncRole::Center);
    inp.local_banks = vec![(s("bank_default"), s("1970"))];
    inp.local_questions = vec![(s("q1"), q("2026-09-10", "bank_default"))];
    inp.in_question_tombs = vec![(s("q1"), tomb("2026-09-12", Some("bank_default")))];
    let p: MergePlan = plan_merge(&inp);
    assert_eq!(p.dead_questions, vec![s("q1")]);
    assert!(p.surv_questions.is_empty());
    assert!(p.drop_question_tombs.is_empty());
}

#[test]
fn plan_edit_newer_than_tombstone_wins() {
    let mut inp = empty(SyncRole::Center);
    inp.local_banks = vec![(s("bank_default"), s("1970"))];
    inp.local_question_tombs = vec![(s("q1"), tomb("2026-09-12", Some("bank_default")))];
    inp.in_questions = vec![(s("q1"), q("2026-09-15", "bank_default"))];
    let p = plan_merge(&inp);
    assert_eq!(p.write_questions, vec![s("q1")]);
    assert_eq!(p.drop_question_tombs, vec![s("q1")]);
    assert!(p.dead_questions.is_empty());
    assert_eq!(p.surv_questions, vec![s("q1")]);
}

#[test]
fn plan_tie_keeps_on_hub_and_takes_on_leaf() {
    let mut inp = empty(SyncRole::Center);
    inp.local_banks = vec![(s("b1"), s("2026-09-10"))];
    inp.in_banks = vec![(s("b1"), s("2026-09-10"))];
    assert!(plan_merge(&inp).write_banks.is_empty());
    inp.role = SyncRole::Leaf;
    assert_eq!(plan_merge(&inp).write_banks, vec![s("b1")]);
}

#[test]
fn plan_zero_bank_guard_restores_all() {
    let mut inp = empty(SyncRole::Center);
    inp.local_banks = vec![(s("bank_default"), s("1970")), (s("b1"), s("2026-09-01"))];
    inp.local_questions = vec![(s("q1"), q("2026-09-01", "b1"))];
    inp.in_bank_tombs = vec![
        (s("bank_default"), tomb("2026-09-10", Some("bank_default"))),
        (s("b1"), tomb("2026-09-10", Some("b1"))),
    ];
    inp.in_question_tombs = vec![(s("q1"), tomb("2026-09-10", Some("b1")))];
    let p = plan_merge(&inp);
    assert!(p.dead_banks.is_empty());
    assert_eq!(sorted(&p.guard_banks), vec![s("b1"), s("bank_default")]);
    assert_eq!(p.guard_questions, vec![s("q1")]);
    assert!(p.dead_questions.is_empty());
}

#[test]
fn plan_rebanks_survivors_to_default() {
    let mut inp = empty(SyncRole::Center);
    inp.local_banks = vec![(s("bank_default"), s("1970")), (s("b1"), s("2026-09-01"))];
    inp.local_questions = vec![(s("q1"), q("2026-09-01", "b1")), (s("q2"), q("2026-09-01", "bank_default"))];
    inp.in_bank_tombs = vec![(s("b1"), tomb("2026-09-10", Some("b1")))];
    let p = plan_merge(&inp);
    assert_eq!(p.dead_banks, vec![s("b1")]);
    assert_eq!(p.fallback, Some(s("bank_default")));
    assert_eq!(p.rebanked, vec![s("q1")]);
    assert_eq!(p.rebank_only, vec![s("q1")]);
    assert!(has(&p.surv_questions, "q1"));
    assert!(has(&p.surv_questions, "q2"));
}

#[test]
fn plan_fallback_is_least_surviving_id_without_default() {
    let mut inp = empty(SyncRole::Center);
    inp.local_banks = vec![(s("b_z"), s("2026-09-01")), (s("b_a"), s("2026-09-01")), (s("b_m"), s("2026-09-01"))];
    inp.local_questions = vec![(s("q1"), q("2026-09-01", "b_m"))];
    inp.in_bank_tombs = vec![(s("b_m"), tomb("2026-09-10", Some("b_m")))];
    let p = plan_merge(&inp);
    assert_eq!(p.fallback, Some(s("b_a")));
    assert_eq!(p.rebanked, vec![s("q1")]);
}

#[test]
fn plan_horizon_drops_zombies() {
    let mut inp = empty(SyncRole::Center);
    inp.floor = Some(s("2026-06-01"));
    inp.local_banks = vec![(s("bank_default"), s("1970"))];
    inp.in_questions = vec![(s("q_old"), q("2026-02-01", "bank_default")), (s("q_new"), q("2026-07-01", "bank_default"))];
    inp.in_question_tombs = vec![(s("q_gone"), tomb("2026-01-01", None))];
    let p = plan_merge(&inp);
    assert_eq!(p.zombie_question_rows, vec![s("q_old")]);
    assert_eq!(p.zombie_question_tombs, vec![s("q_gone")]);
    assert_eq!(p.write_questions, vec![s("q_new")]);
    assert!(p.dead_questions.is_empty());
}

#[test]
fn plan_later_incoming_tombstone_of_same_time_wins_tie() {
    let mut inp = empty(SyncRole::Center);
    inp.local_banks = vec![(s("bank_default"), s("1970"))];
    inp.local_question_tombs = vec![(s("q1"), tomb("2026-09-12", Some("b_local")))];
    inp.in_question_tombs = vec![(s("q1"), tomb("2026-09-12", Some("b_in")))];
    let p = plan_merge(&inp);
    assert_eq!(p.dead_questions, vec![s("q1")]);
}

#[test]
fn plan_empty_input_decides_nothing() {
    let p = plan_merge(&empty(SyncRole::Leaf));
    assert!(p.fallback.is_none());
    assert!(p.write_banks.is_empty() && p.write_questions.is_empty() && p.dead_banks.is_empty());
}

#[test]
fn plan_hub_repush_of_held_rows_writes_nothing() {
    let mut inp = empty(SyncRole::Center);
    inp.local_banks = vec![(s("bank_default"), s("2026-09-01")), (s("b2"), s("2026-09-02"))];
    inp.local_questions = vec![(s("q1"), q("2026-09-10", "b2"))];
    inp.in_banks = vec![(s("bank_default"), s("2026-09-01")), (s("b2"), s("2026-09-02"))];
    inp.in_questions = vec![(s("q1"), q("2026-09-10", "b2"))];
    let p = plan_merge(&inp);
    assert!(p.write_banks.is_empty());
    assert!(p.write_questions.is_empty());
    assert_eq!(p.surv_questions, vec![s("q1")]);
}
