//! Materialization reports: deduplication, the modes and their log levels.

use bui_env_loader::materialize::{deduplicate, issue_events, issue_log_level, join_strings, settle};
use bui_env_loader::EventKind;
use bui_env_loader::MaterializationMode::{Normal, Notify, Strict, Warn};
use bui_env_loader::{
    ConfigError, IssueKind, IssueSeverity, Level, MaterializationIssue, MaterializationMode,
    MaterializationReport,
};

fn warning() -> MaterializationIssue {
    MaterializationIssue::unknown("APP_ORPHAN", "test")
}

fn notice() -> MaterializationIssue {
    MaterializationIssue::missing_optional("APP_TOKEN")
}

fn error() -> MaterializationIssue {
    MaterializationIssue::from_error(Some("port"), &ConfigError::invalid_value("APP_PORT"))
}

#[test]
fn a_report_lists_each_issue_once_in_order_of_first_appearance() {
    let report = MaterializationReport::new(vec![warning(), notice(), warning(), notice(), error()]);

    assert_eq!(report.issues().to_vec(), vec![warning(), notice(), error()]);
    assert!(!report.is_clean());
    assert!(report.has_errors());
    assert!(MaterializationReport::new(Vec::new()).is_clean());
    assert!(MaterializationReport::default().is_clean());
}

#[test]
fn deduplicate_keeps_the_first_of_equal_issues() {
    let a = MaterializationIssue::default_used("A");
    let b = MaterializationIssue::default_used("B");
    assert_eq!(
        deduplicate(vec![a.clone(), b.clone(), a.clone(), b.clone(), a.clone()]),
        vec![a, b]
    );
}

#[test]
fn only_errors_reject_outside_strict_mode() {
    for mode in [
        MaterializationMode::Normal,
        MaterializationMode::Notify,
        MaterializationMode::Warn,
    ] {
        let accepted = settle(Some(7), vec![warning(), notice()], mode).ok().unwrap();
        assert_eq!(accepted.value, 7);
        assert_eq!(accepted.report.issues().len(), 2);

        let rejected = settle(Some(7), vec![warning(), error()], mode).err().unwrap();
        assert!(rejected.report.has_errors());
    }
}

#[test]
fn strict_mode_rejects_any_issue_and_accepts_none() {
    let rejected = settle(Some(1), vec![notice()], MaterializationMode::Strict)
        .err()
        .unwrap();
    assert_eq!(rejected.report.issues().to_vec(), vec![notice()]);
    assert!(!rejected.report.has_errors());

    let accepted = settle(Some(1), Vec::new(), MaterializationMode::Strict).ok().unwrap();
    assert!(accepted.report.is_clean());
}

#[test]
fn a_missing_value_without_an_error_becomes_an_internal_error() {
    let rejected = settle::<u8>(None, vec![notice()], MaterializationMode::Warn)
        .err()
        .unwrap();
    let issues = rejected.report.issues();
    assert_eq!(issues.len(), 2);
    assert_eq!(issues[1].kind, IssueKind::Internal);
    assert_eq!(issues[1].severity, IssueSeverity::Error);
    assert_eq!(
        issues[1].message,
        "[!!] The Materialize implementation returned no value without recording an error"
    );

    // An error already explains the missing value: nothing is added.
    let rejected = settle::<u8>(None, vec![error()], MaterializationMode::Normal)
        .err()
        .unwrap();
    assert_eq!(rejected.report.issues().to_vec(), vec![error()]);
}

#[test]
fn each_mode_logs_at_its_own_level() {
    assert_eq!(issue_log_level(Normal, &error()), Some(Level::Error));
    assert_eq!(issue_log_level(Normal, &warning()), None);
    assert_eq!(issue_log_level(Normal, &notice()), None);

    assert_eq!(issue_log_level(Notify, &error()), Some(Level::Error));
    assert_eq!(issue_log_level(Notify, &notice()), Some(Level::Info));
    assert_eq!(issue_log_level(Notify, &warning()), None);

    for mode in [Warn, Strict] {
        assert_eq!(issue_log_level(mode, &error()), Some(Level::Error));
        assert_eq!(issue_log_level(mode, &warning()), Some(Level::Warn));
        assert_eq!(issue_log_level(mode, &notice()), Some(Level::Info));
    }
}

#[test]
fn issue_constructors_fill_their_fields() {
    let duplicate = MaterializationIssue::duplicate(
        "APP_HOST",
        &vec!["explicit".to_owned(), "custom".to_owned()],
    );
    assert_eq!(duplicate.kind, IssueKind::DuplicateVariable);
    assert_eq!(duplicate.severity, IssueSeverity::Warning);
    assert_eq!(duplicate.source.as_deref(), Some("explicit, custom"));
    assert_eq!(duplicate.variable.as_deref(), Some("APP_HOST"));

    let in_source = MaterializationIssue::duplicate_in_source("PORT", ".env");
    assert_eq!(in_source.kind, IssueKind::DuplicateVariable);
    assert_eq!(in_source.source.as_deref(), Some(".env"));

    let failed = MaterializationIssue::from_error(None, &ConfigError::computation("url", "boom"));
    assert_eq!(failed.kind, IssueKind::ComputationFailed);
    assert_eq!(failed.severity, IssueSeverity::Error);
    assert_eq!(failed.message, "[!!] Computed field failed");

    let missing = MaterializationIssue::from_error(Some("host"), &ConfigError::missing("APP_HOST"));
    assert_eq!(missing.kind, IssueKind::MissingRequired);
    assert_eq!(missing.field.as_deref(), Some("host"));

    let internal = MaterializationIssue::internal("oops");
    assert_eq!(internal.kind, IssueKind::Internal);
    assert_eq!(internal.message, "oops");

    assert_eq!(MaterializationIssue::default_used("A").severity, IssueSeverity::Notice);
}

#[test]
fn strings_are_joined_with_the_separator() {
    assert_eq!(join_strings(&Vec::new(), ", "), "");
    assert_eq!(join_strings(&vec!["a".to_owned()], ", "), "a");
    assert_eq!(
        join_strings(&vec!["a".to_owned(), "b".to_owned(), "c".to_owned()], "+"),
        "a+b+c"
    );
}

#[test]
fn a_report_is_logged_as_one_event_per_shown_issue() {
    let issues = vec![warning(), notice(), error()];

    let normal = issue_events(Normal, &issues);
    assert_eq!(normal.len(), 1);
    assert_eq!(normal[0].level, Level::Error);
    assert_eq!(normal[0].kind, EventKind::Issue);
    assert_eq!(normal[0].field, Some("port"));
    assert_eq!(normal[0].key, Some("APP_PORT"));
    assert_eq!(normal[0].message, "[!!] Variable has an invalid value");

    let notify = issue_events(Notify, &issues);
    let levels: Vec<Level> = notify.iter().map(|e| e.level).collect();
    assert_eq!(levels, vec![Level::Info, Level::Error]);
    assert_eq!(notify[0].key, Some("APP_TOKEN"));

    let warn = issue_events(Warn, &issues);
    let levels: Vec<Level> = warn.iter().map(|e| e.level).collect();
    assert_eq!(levels, vec![Level::Warn, Level::Info, Level::Error]);
    assert_eq!(warn[0].source, Some("test"));
}
