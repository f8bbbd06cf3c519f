use bui_env_loader::source::dotenv::parse;
use bui_env_loader::source::ParsedDotenv;
use bui_env_loader::source::Source;
use bui_env_loader::ConfigErrorKind;

fn value_of<'a>(values: &'a [(String, String)], key: &str) -> &'a str {
    values
        .iter()
        .find(|(k, _)| k == key)
        .map(|(_, v)| v.as_str())
        .unwrap_or_else(|| panic!("no value for {key}"))
}

#[test]
fn parses_supported_dotenv_syntax() {
    let input = r#"
            # comment
            HOST=127.0.0.1
            export PORT=8080
            EMPTY=
            MESSAGE="hello\nworld"
            LITERAL='a # is not a comment'
            URL=https://example.test/#fragment
            COMMENTED=value # comment
        "#;

    let (values, duplicates) = parse(input, "test.env").unwrap();

    assert_eq!(value_of(&values, "HOST"), "127.0.0.1");
    assert_eq!(value_of(&values, "PORT"), "8080");
    assert_eq!(value_of(&values, "EMPTY"), "");
    assert_eq!(value_of(&values, "MESSAGE"), "hello\nworld");
    assert_eq!(value_of(&values, "LITERAL"), "a # is not a comment");
    assert_eq!(value_of(&values, "URL"), "https://example.test/#fragment");
    assert_eq!(value_of(&values, "COMMENTED"), "value");
    assert!(duplicates.is_empty());
}

#[test]
fn reports_duplicate_keys_but_keeps_last_value() {
    let (values, duplicates) = parse("PORT=80\nPORT=8080\n", "test.env").unwrap();

    assert_eq!(value_of(&values, "PORT"), "8080");
    assert_eq!(duplicates, vec!["PORT"]);
}

#[test]
fn a_key_defined_three_times_keeps_the_third_value_and_is_reported_twice() {
    let (values, duplicates) = parse("A=1\nB=2\nA=3\nA=4\n", "x.env").unwrap();

    assert_eq!(values.len(), 2);
    assert_eq!(value_of(&values, "A"), "4");
    assert_eq!(value_of(&values, "B"), "2");
    assert_eq!(duplicates, vec!["A", "A"]);
}

#[test]
fn entries_keep_the_order_of_first_definition() {
    let (values, _) = parse("B=1\nA=2\nB=3\n", "x.env").unwrap();

    assert_eq!(
        values,
        vec![
            ("B".to_owned(), "3".to_owned()),
            ("A".to_owned(), "2".to_owned())
        ]
    );
}

#[test]
fn a_line_without_equals_sign_is_rejected_with_its_line_number() {
    let error = parse("A=1\n\nJUST_A_WORD\n", "bad.env").unwrap_err();

    assert_eq!(error.kind(), ConfigErrorKind::DotenvSyntax);
    assert_eq!(error.source_name(), Some("bad.env"));
    assert_eq!(error.message(), "line 3: [!] Expected `KEY=value`");
}

#[test]
fn an_invalid_name_is_rejected() {
    let error = parse("1ABC=x\n", "bad.env").unwrap_err();

    assert_eq!(error.kind(), ConfigErrorKind::DotenvSyntax);
    assert_eq!(error.message(), "line 1: [!] Invalid environment variable name");

    let error = parse("MY-KEY=x\n", "bad.env").unwrap_err();
    assert_eq!(error.message(), "line 1: [!] Invalid environment variable name");
}

#[test]
fn an_unterminated_quote_is_rejected() {
    let error = parse("A=\"open\n", "bad.env").unwrap_err();
    assert_eq!(error.message(), "line 1: [!] Unterminated quoted value");

    let error = parse("A='open\n", "bad.env").unwrap_err();
    assert_eq!(error.message(), "line 1: [!] Unterminated quoted value");

    // A trailing backslash escapes the closing quote.
    let error = parse("A=\"open\\\"\n", "bad.env").unwrap_err();
    assert_eq!(error.message(), "line 1: [!] Unterminated quoted value");
}

#[test]
fn characters_after_a_closing_quote_are_rejected_unless_a_comment() {
    let error = parse("A=\"x\" y\n", "bad.env").unwrap_err();
    assert_eq!(
        error.message(),
        "line 1: [!] Unexpected characters after quoted value"
    );

    let (values, _) = parse("A=\"x\"   # fine\n", "ok.env").unwrap();
    assert_eq!(value_of(&values, "A"), "x");
}

#[test]
fn escapes_are_decoded_in_double_quotes_only() {
    let (values, _) = parse(
        "D=\"a\\tb\\rc\\\\d\\\"e\\qf\"\nS='a\\tb'\n",
        "x.env",
    )
    .unwrap();

    assert_eq!(value_of(&values, "D"), "a\tb\rc\\d\"eqf");
    assert_eq!(value_of(&values, "S"), "a\\tb");
}

#[test]
fn export_needs_whitespace_after_it() {
    let (values, _) = parse("exported=1\nexport\tX=2\n", "x.env").unwrap();

    assert_eq!(value_of(&values, "exported"), "1");
    assert_eq!(value_of(&values, "X"), "2");
}

#[test]
fn windows_line_endings_and_spaces_around_the_key_are_accepted() {
    let (values, _) = parse("  A  =  one two  \r\nB=#not-a-comment\r\n", "x.env").unwrap();

    assert_eq!(value_of(&values, "A"), "one two");
    assert_eq!(value_of(&values, "B"), "");
}

#[test]
fn an_empty_text_has_no_entries() {
    let (values, duplicates) = parse("", "x.env").unwrap();
    assert!(values.is_empty());
    assert!(duplicates.is_empty());
}

#[test]
fn a_parsed_file_is_a_source_named_after_it() {
    let parsed = ParsedDotenv::from_text(".env", "B=2\nA=1\nA=3\n").unwrap();

    assert_eq!(parsed.duplicate_keys, vec!["A"]);
    assert_eq!(parsed.source.name(), ".env");
    assert_eq!(parsed.source.get("A").unwrap().as_deref(), Some("3"));
    assert_eq!(parsed.source.get("a").unwrap(), None);
    assert_eq!(
        parsed.source.keys().unwrap(),
        Some(vec!["B".to_owned(), "A".to_owned()])
    );
    assert!(parsed.source.has_key("B").unwrap());
    assert!(!parsed.source.is_empty().unwrap());
}

#[test]
fn a_malformed_file_fails_with_the_file_name() {
    let error = ParsedDotenv::from_text("broken.env", "OK=1\nnot valid\n").unwrap_err();

    assert_eq!(error.kind(), ConfigErrorKind::DotenvSyntax);
    assert_eq!(error.source_name(), Some("broken.env"));
    assert_eq!(error.message(), "line 2: [!] Expected `KEY=value`");
}
