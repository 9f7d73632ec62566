use qbank::backup::template_files;
use qbank::practice::resolve_grade;

fn check_resolve_grade() {
    assert_eq!(resolve_grade("practice", Some("good")).unwrap(), "good");
    assert_eq!(resolve_grade("practice", Some("again")).unwrap(), "again");
    assert!(resolve_grade("practice", None).is_err());
    assert!(resolve_grade("practice", Some("hard")).is_err());
    assert_eq!(resolve_grade("review", Some("hard")).unwrap(), "hard");
    assert!(resolve_grade("review", None).is_err());
    assert!(resolve_grade("review", Some("bogus")).is_err());
}

#[test]
fn db_resolve_grade_trusts_frontend_for_practice() {
    check_resolve_grade();
}

#[test]
fn practice_resolve_grade_trusts_frontend_for_practice() {
    check_resolve_grade();
}

fn check_template_whitelist() {
    assert!(template_files().iter().any(|n| *n == "MD模板.md"));
    assert!(template_files().iter().any(|n| *n == "Excel模板.xlsx"));
    assert!(template_files().iter().any(|n| *n == "Word模板.docx"));
    assert!(!template_files().iter().any(|n| *n == "../qbank.db"));
}

#[test]
fn db_template_whitelist_rejects_unknown() {
    check_template_whitelist();
}

#[test]
fn backup_template_whitelist_rejects_unknown() {
    check_template_whitelist();
}
