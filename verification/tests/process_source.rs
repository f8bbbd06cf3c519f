use bui_env_loader::source::{ProcessEnvSource, Source};

fn var(key: &str, value: &str) -> (Option<String>, Option<String>) {
    (Some(key.to_owned()), Some(value.to_owned()))
}

#[test]
fn absent_keys_are_missing() {
    let source = ProcessEnvSource::from_environment(vec![var("HOME", "/root")]);
    assert_eq!(source.get("BUI_PROCESS_SOURCE_TEST_MISSING").unwrap(), None);
    assert!(!source.has_key("BUI_PROCESS_SOURCE_TEST_MISSING").unwrap());
}

#[test]
fn source_name_is_stable() {
    assert_eq!(ProcessEnvSource::from_environment(Vec::new()).name(), "process");
}

#[test]
fn a_snapshot_answers_from_the_variables_it_was_built_from() {
    let source = ProcessEnvSource::from_environment(vec![
        var("BUI_PROCESS_SOURCE_TEST_SNAPSHOT", "snapshot-value"),
        var("OTHER", "x"),
    ]);

    assert_eq!(
        source.get("BUI_PROCESS_SOURCE_TEST_SNAPSHOT").unwrap().as_deref(),
        Some("snapshot-value")
    );
    assert!(source.has_key("BUI_PROCESS_SOURCE_TEST_SNAPSHOT").unwrap());
    // Names are case-sensitive in the process environment.
    assert_eq!(source.get("other").unwrap(), None);
}

#[test]
fn keys_and_entries_stay_consistent() {
    let source = ProcessEnvSource::from_environment(vec![
        var("BUI_PROCESS_SOURCE_TEST_ENTRIES", "value"),
        (Some("BROKEN".to_owned()), None),
    ]);

    let keys = source.keys().unwrap().expect("process lists keys");
    assert!(keys.contains(&"BUI_PROCESS_SOURCE_TEST_ENTRIES".to_owned()));
    assert!(keys.contains(&"BROKEN".to_owned()));

    let entries = source.entries().unwrap().expect("process lists entries");
    assert!(entries.contains(&(
        "BUI_PROCESS_SOURCE_TEST_ENTRIES".to_owned(),
        "value".to_owned()
    )));
    assert!(entries.contains(&("BROKEN".to_owned(), "<non-UTF-8 value>".to_owned())));

    assert!(!source.is_empty().unwrap());
    assert_eq!(
        source.values().unwrap(),
        Some(vec!["value".to_owned(), "<non-UTF-8 value>".to_owned()])
    );
}

#[test]
fn a_value_that_is_not_utf8_fails_only_when_asked_for() {
    let source = ProcessEnvSource::from_environment(vec![
        (Some("BROKEN".to_owned()), None),
        (None, Some("unreachable".to_owned())),
        var("FINE", "ok"),
    ]);

    let error = source.get("BROKEN").unwrap_err();
    assert_eq!(
        error.message(),
        "[!] The process variable is not valid UTF-8 for key: BROKEN"
    );
    assert!(source.has_key("BROKEN").unwrap());
    assert_eq!(source.get("FINE").unwrap().as_deref(), Some("ok"));
    assert_eq!(
        source.keys().unwrap(),
        Some(vec!["FINE".to_owned(), "BROKEN".to_owned()])
    );
}

#[test]
fn an_empty_environment_is_empty() {
    let source = ProcessEnvSource::from_environment(Vec::new());
    assert!(source.is_empty().unwrap());
    assert_eq!(source.entries().unwrap(), Some(Vec::new()));
}

#[test]
fn a_later_variable_of_the_same_name_replaces_an_earlier_one() {
    let source = ProcessEnvSource::from_environment(vec![var("A", "1"), var("A", "2")]);
    assert_eq!(source.get("A").unwrap().as_deref(), Some("2"));
}
