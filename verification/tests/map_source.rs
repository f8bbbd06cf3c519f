use bui_env_loader::source::{MapSource, Source};

#[test]
fn keys_are_normalized_to_upper_case() {
    let mut source = MapSource::new("test");
    source.insert("app_host", "localhost");

    assert_eq!(
        source.get("APP_HOST").unwrap().as_deref(),
        Some("localhost")
    );
    assert_eq!(
        source.get("app_host").unwrap().as_deref(),
        Some("localhost")
    );
    assert_eq!(
        source
            .with("MiXeD", "value")
            .get("mixed")
            .unwrap()
            .as_deref(),
        Some("value")
    );
}

#[test]
fn later_inserts_replace_earlier_values() {
    let source = MapSource::new("test")
        .with("KEY", "first")
        .with("KEY", "second");

    assert_eq!(source.get("KEY").unwrap().as_deref(), Some("second"));
}

#[test]
fn default_trait_methods_work() {
    let empty = MapSource::new("empty");
    assert!(empty.is_empty().unwrap());
    assert!(!empty.has_key("KEY").unwrap());
    assert_eq!(empty.entries().unwrap(), Some(Vec::new()));

    let source = MapSource::new("test").with("A", "1").with("B", "2");
    assert!(!source.is_empty().unwrap());
    assert!(source.has_key("A").unwrap());
    assert!(!source.has_key("C").unwrap());

    let mut entries = source.entries().unwrap().expect("map sources list entries");
    entries.sort();
    assert_eq!(
        entries,
        vec![
            ("A".to_owned(), "1".to_owned()),
            ("B".to_owned(), "2".to_owned())
        ]
    );
}

#[test]
fn missing_keys_return_none() {
    let source = MapSource::new("test").with("A", "1");
    assert_eq!(source.get("MISSING").unwrap(), None);
}

#[test]
fn a_map_source_reports_its_name_keys_and_values() {
    let source = MapSource::new("settings").with("b", "2").with("a", "1").with("B", "3");

    assert_eq!(source.name(), "settings");
    assert_eq!(
        source.keys().unwrap(),
        Some(vec!["B".to_owned(), "A".to_owned()])
    );
    assert_eq!(
        source.values().unwrap(),
        Some(vec!["3".to_owned(), "1".to_owned()])
    );
}

#[test]
fn a_cloned_map_source_holds_the_same_values() {
    let source = MapSource::new("settings").with("a", "1");
    let copy = source.clone();

    assert_eq!(copy.name(), "settings");
    assert_eq!(copy.get("A").unwrap().as_deref(), Some("1"));
}
