//! Source precedence, duplicate detection and dotenv registration rules.
//!
//! Dotenv files are handed to the loader as their contents, the way the
//! application layer reads them; the fixtures below stand for those files.

use bui_env_loader::source::{MapSource, ProcessEnvSource, Source};
use bui_env_loader::{
    ConfigContext, ConfigError, DotenvInput, EnvConfig, IssueKind, IssueSeverity, Loaded, Loader,
    MaterializationContext, MaterializationMode, Materialize, SourceError,
};

fn fixture(path: &str) -> Option<&'static str> {
    match path {
        "./tests/.env.test" => Some(
            "# application settings\nAPP_HOST=127.0.0.1\nAPP_PORT=8080\nAPP_TOKEN=development-token\nAPP_LOG_LEVEL=debug\n",
        ),
        "./tests/.env.test_duplicate" => Some("APP_HOST=first\nAPP_HOST=second\n"),
        "./tests/.env.test_override" => Some("APP_HOST=override.example\n"),
        _ => None,
    }
}

fn inputs(loader: &Loader) -> Vec<DotenvInput> {
    loader
        .dotenv_files()
        .iter()
        .map(|file| match fixture(&file.path) {
            Some(text) => DotenvInput::Contents {
                name: file.path.clone(),
                text: text.to_owned(),
            },
            None if !file.required => DotenvInput::Absent,
            None => DotenvInput::Unreadable {
                name: file.path.clone(),
                message: "No such file or directory (os error 2)".to_owned(),
            },
        })
        .collect()
}

fn load_in<C: EnvConfig>(loader: Loader, environment: Vec<(&str, &str)>) -> Result<Loaded<C>, ConfigError> {
    let dotenv = inputs(&loader);
    let snapshot = if loader.includes_process_environment() {
        Some(ProcessEnvSource::from_environment(
            environment
                .into_iter()
                .map(|(k, v)| (Some(k.to_owned()), Some(v.to_owned())))
                .collect(),
        ))
    } else {
        None
    };
    loader.load_from::<C>(snapshot, dotenv)
}

fn load<C: EnvConfig>(loader: Loader) -> Result<Loaded<C>, ConfigError> {
    load_in(loader, Vec::new())
}

#[derive(Debug)]
struct Config {
    host: String,
}

impl EnvConfig for Config {
    fn from_env(context: &mut ConfigContext) -> Result<Self, ConfigError> {
        Ok(Self {
            host: context.get("APP_HOST")?,
        })
    }
}

impl Materialize for Config {
    type Output = String;

    fn materialize(&self, _context: &mut MaterializationContext<'_>) -> Option<Self::Output> {
        Some(self.host.clone())
    }
}

#[test]
fn explicit_values_win_over_every_other_source() {
    let loaded = load::<Config>(
        Loader::new()
            .set("APP_HOST", "explicit")
            .source(MapSource::new("custom").with("APP_HOST", "custom"))
            .add_dotenv("./tests/.env.test")
            .prefix("APP_"),
    )
    .unwrap();

    assert_eq!(loaded.host, "explicit");
}

#[test]
fn custom_sources_win_over_dotenv_files() {
    let loaded = load::<Config>(
        Loader::new()
            .source(MapSource::new("custom").with("APP_HOST", "custom"))
            .add_dotenv("./tests/.env.test")
            .prefix("APP_"),
    )
    .unwrap();

    assert_eq!(loaded.host, "custom");
}

#[test]
fn process_environment_sits_between_custom_sources_and_dotenv() {
    let via_process = load_in::<Config>(
        Loader::new().add_dotenv("./tests/.env.test").prefix("APP_"),
        vec![("APP_HOST", "from-process")],
    )
    .unwrap();
    assert_eq!(via_process.host, "from-process");

    let via_custom = load_in::<Config>(
        Loader::new().source(MapSource::new("custom").with("APP_HOST", "custom")),
        vec![("APP_HOST", "from-process")],
    )
    .unwrap();
    assert_eq!(via_custom.host, "custom");
}

#[test]
fn without_process_environment_ignores_process_variables() {
    let loaded = load_in::<Config>(
        Loader::new()
            .without_process_environment()
            .add_dotenv("./tests/.env.test")
            .prefix("APP_"),
        vec![("APP_HOST", "from-process")],
    )
    .unwrap();

    assert_eq!(loaded.host, "127.0.0.1");
}

#[test]
fn the_same_key_in_several_sources_is_reported_as_a_duplicate() {
    let materialized = load::<Config>(
        Loader::new()
            .without_process_environment()
            .set("APP_HOST", "explicit")
            .source(MapSource::new("custom").with("APP_HOST", "custom"))
            .add_dotenv("./tests/.env.test")
            .prefix("APP_"),
    )
    .unwrap()
    .materialize(MaterializationMode::Warn)
    .unwrap();

    let duplicates: Vec<_> = materialized
        .report
        .issues()
        .iter()
        .filter(|issue| issue.kind == IssueKind::DuplicateVariable)
        .collect();

    assert_eq!(duplicates.len(), 1);
    assert_eq!(duplicates[0].severity, IssueSeverity::Warning);
    assert_eq!(duplicates[0].variable.as_deref(), Some("APP_HOST"));
    let sources = duplicates[0].source.as_deref().expect("names the sources");
    assert!(sources.contains("explicit"), "{sources}");
    assert!(sources.contains("custom"), "{sources}");
    assert!(sources.contains(".env.test"), "{sources}");
}

#[test]
fn a_duplicate_inside_one_dotenv_file_survives_until_materialization() {
    let materialized = load::<Config>(
        Loader::new()
            .without_process_environment()
            .add_dotenv("./tests/.env.test_duplicate"),
    )
    .unwrap()
    .materialize(MaterializationMode::Warn)
    .unwrap();

    assert_eq!(materialized.value, "second");

    let duplicates: Vec<_> = materialized
        .report
        .issues()
        .iter()
        .filter(|issue| issue.kind == IssueKind::DuplicateVariable)
        .collect();
    assert_eq!(duplicates.len(), 1, "the last value in the file wins");
}

#[test]
fn optional_dotenv_files_are_skipped_when_absent() {
    let loaded = load::<Config>(
        Loader::new()
            .set("APP_HOST", "fallback")
            .add_dotenv_optional("./tests/.env.test_non_existent")
            .prefix("APP_"),
    )
    .unwrap();

    assert_eq!(loaded.host, "fallback");
}

#[test]
fn earlier_dotenv_files_win_over_later_ones() {
    let loaded = load::<Config>(
        Loader::new()
            .without_process_environment()
            .add_dotenv("./tests/.env.test")
            .add_dotenv("./tests/.env.test_override"),
    )
    .unwrap();

    assert_eq!(loaded.host, "127.0.0.1");
}

struct FailingSource;

impl Source for FailingSource {
    fn name(&self) -> &str {
        "failing"
    }

    fn get(&self, _key: &str) -> Result<Option<String>, SourceError> {
        Err(SourceError::new("source exploded"))
    }
}

#[test]
fn a_failing_source_stops_loading_with_a_source_error() {
    let error = load::<Config>(
        Loader::new()
            .without_process_environment()
            .source(FailingSource),
    )
    .err()
    .unwrap();

    assert_eq!(error.kind(), bui_env_loader::ConfigErrorKind::Source);
    assert_eq!(error.source_name(), Some("failing"));
    assert_eq!(error.key(), Some("APP_HOST"));
}

#[test]
fn a_failing_source_after_the_winning_one_still_stops_loading() {
    let error = load::<Config>(
        Loader::new()
            .without_process_environment()
            .source(MapSource::new("first").with("APP_HOST", "here"))
            .source(FailingSource),
    )
    .err()
    .unwrap();

    assert_eq!(error.kind(), bui_env_loader::ConfigErrorKind::Source);
    assert_eq!(error.source_name(), Some("failing"));
}

#[test]
fn explicit_values_set_later_replace_earlier_ones() {
    let loaded = load::<Config>(
        Loader::new()
            .without_process_environment()
            .set("APP_HOST", "first")
            .set("app_host", "second"),
    )
    .unwrap();

    assert_eq!(loaded.host, "second");
}

#[test]
fn a_required_dotenv_file_that_cannot_be_read_stops_loading() {
    let error = load::<Config>(
        Loader::new()
            .set("APP_HOST", "fallback")
            .add_dotenv("./tests/.env.test_non_existent"),
    )
    .err()
    .unwrap();

    assert_eq!(error.kind(), bui_env_loader::ConfigErrorKind::Io);
    assert_eq!(error.source_name(), Some("./tests/.env.test_non_existent"));
}

#[test]
fn the_loader_remembers_its_registrations() {
    let loader = Loader::new()
        .add_dotenv("a.env")
        .add_dotenv_optional("b.env")
        .without_process_environment();

    let files = loader.dotenv_files();
    assert_eq!(files.len(), 2);
    assert_eq!(files[0].path, "a.env");
    assert!(files[0].required);
    assert_eq!(files[1].path, "b.env");
    assert!(!files[1].required);
    assert!(!loader.includes_process_environment());
    assert!(Loader::default().includes_process_environment());
}
