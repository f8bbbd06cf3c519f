use std::sync::atomic::{AtomicUsize, Ordering};
use std::sync::Arc;

use bui_env_loader::resolver::Runtime;

use bui_env_loader::source::{MapSource, Source};
use bui_env_loader::{
    Computed, ConfigContext, ConfigError, ConfigErrorKind, EnvConfig, IssueKind, Lazy, LazyOptional,
    Loaded, Loader, MaterializationContext, MaterializationMode, Materialize, NoopReporter,
    ResolveSession, SourceError,
};

fn load<C: EnvConfig>(loader: Loader) -> Result<Loaded<C>, ConfigError> {
    loader.load_from::<C>(None, Vec::new())
}

struct EagerConfig {
    port: u16,
    token: Option<String>,
}

impl EnvConfig for EagerConfig {
    fn from_env(context: &mut ConfigContext) -> Result<Self, ConfigError> {
        Ok(Self {
            port: context.get("APP_PORT")?,
            token: context.get_optional("APP_TOKEN")?,
        })
    }
}

#[test]
fn eager_get_is_strongly_typed_and_optional_is_explicit() {
    let source = MapSource::new("test").with("APP_PORT", "8080");
    let loaded = load::<EagerConfig>(Loader::new().without_process_environment().source(source))
        .unwrap();

    assert_eq!(loaded.port, 8080);
    assert_eq!(loaded.token, None);
}

#[derive(Clone)]
struct CountingSource {
    calls: Arc<AtomicUsize>,
}

impl Source for CountingSource {
    fn name(&self) -> &str {
        "counter"
    }

    fn get(&self, key: &str) -> Result<Option<String>, SourceError> {
        if key != "APP_COUNTER" {
            return Ok(None);
        }

        let value = self.calls.fetch_add(1, Ordering::SeqCst) + 1;
        Ok(Some(value.to_string()))
    }

    fn keys(&self) -> Result<Option<Vec<String>>, SourceError> {
        Ok(Some(vec!["APP_COUNTER".to_owned()]))
    }
}

struct CounterConfig {
    counter: Lazy<usize>,
}

impl EnvConfig for CounterConfig {
    fn from_env(context: &mut ConfigContext) -> Result<Self, ConfigError> {
        Ok(Self {
            counter: context.lazy_get("APP_COUNTER")?,
        })
    }
}

#[test]
fn lazy_get_reads_the_source_on_every_call() {
    let calls = Arc::new(AtomicUsize::new(0));
    let loaded = load::<CounterConfig>(
        Loader::new()
            .without_process_environment()
            .source(CountingSource {
                calls: calls.clone(),
            }),
    )
    .unwrap();

    assert_eq!(loaded.counter.get().unwrap(), 1);
    assert_eq!(loaded.counter.get().unwrap(), 2);
    assert_eq!(calls.load(Ordering::SeqCst), 2);
}

struct ComputedConfig {
    value: Computed<usize>,
}

impl EnvConfig for ComputedConfig {
    fn from_env(context: &mut ConfigContext) -> Result<Self, ConfigError> {
        let calls = Arc::new(AtomicUsize::new(0));
        Ok(Self {
            value: context.get_computed("value", move |_| {
                Ok(calls.fetch_add(1, Ordering::SeqCst) + 1)
            }),
        })
    }
}

#[test]
fn computed_closure_runs_on_every_call() {
    let loaded = load::<ComputedConfig>(Loader::new().without_process_environment()).unwrap();

    assert_eq!(loaded.value.get().unwrap(), 1);
    assert_eq!(loaded.value.get().unwrap(), 2);
}

struct DeferredConfig {
    eager_optional: Option<String>,
    number: Lazy<u16>,
    lazy_optional: LazyOptional<String>,
    label: Computed<String>,
}

#[derive(Debug, PartialEq, Eq)]
struct DeferredSnapshot {
    eager_optional: Option<String>,
    number: u16,
    lazy_optional: Option<String>,
    label: String,
}

impl EnvConfig for DeferredConfig {
    fn from_env(context: &mut ConfigContext) -> Result<Self, ConfigError> {
        Ok(Self {
            eager_optional: context.get_optional("APP_EAGER_OPTIONAL")?,
            number: context.lazy_get("APP_NUMBER")?,
            lazy_optional: context.lazy_get_optional("APP_LAZY_OPTIONAL")?,
            label: context.get_computed("label", |session| {
                let number = session.get::<u16>("APP_NUMBER")?;
                Ok(format!("number-{number}"))
            }),
        })
    }
}

impl Materialize for DeferredConfig {
    type Output = DeferredSnapshot;

    fn materialize(&self, context: &mut MaterializationContext<'_>) -> Option<Self::Output> {
        let number = context.lazy("number", &self.number);
        let lazy_optional = context.lazy_optional("lazy_optional", &self.lazy_optional);
        let label = context.computed("label", &self.label);

        match (number, lazy_optional, label) {
            (Some(number), Some(lazy_optional), Some(label)) => Some(DeferredSnapshot {
                eager_optional: self.eager_optional.clone(),
                number,
                lazy_optional,
                label,
            }),
            _ => None,
        }
    }
}

fn deferred_config() -> Loaded<DeferredConfig> {
    load::<DeferredConfig>(
        Loader::new()
            .without_process_environment()
            .source(MapSource::new("test").with("APP_NUMBER", "7"))
            .prefix("APP_"),
    )
    .unwrap()
}

#[test]
fn notify_allows_missing_optional_fields_and_returns_report() {
    let materialized = deferred_config()
        .materialize(MaterializationMode::Notify)
        .unwrap();

    assert_eq!(materialized.value.number, 7);
    assert_eq!(materialized.value.label, "number-7");
    assert_eq!(materialized.value.eager_optional, None);
    assert_eq!(materialized.value.lazy_optional, None);

    let missing_count = materialized
        .report
        .issues()
        .iter()
        .filter(|issue| issue.kind == IssueKind::MissingOptional)
        .count();
    assert_eq!(missing_count, 2);
}

#[test]
fn strict_rejects_even_non_fatal_discrepancies() {
    let error = deferred_config()
        .materialize(MaterializationMode::Strict)
        .err()
        .unwrap();

    assert!(!error.report.is_clean());
    assert!(!error.report.has_errors());
}

#[test]
fn a_lazy_optional_field_reads_present_and_absent_values() {
    let loaded = load::<DeferredConfig>(
        Loader::new()
            .without_process_environment()
            .source(
                MapSource::new("test")
                    .with("APP_NUMBER", "7")
                    .with("APP_LAZY_OPTIONAL", "here"),
            ),
    )
    .unwrap();

    assert_eq!(
        loaded.lazy_optional.lazy_get_optional().unwrap().as_deref(),
        Some("here")
    );
    assert_eq!(loaded.number.get().unwrap(), 7);
    assert_eq!(loaded.label.get().unwrap(), "number-7");
}

#[test]
fn a_lazy_field_whose_value_is_missing_fails_with_a_missing_variable_error() {
    let loaded = load::<DeferredConfig>(Loader::new().without_process_environment()).unwrap();

    let error = loaded.number.get().err().unwrap();
    assert_eq!(error.kind(), ConfigErrorKind::MissingVariable);
    assert_eq!(error.key(), Some("APP_NUMBER"));
    assert_eq!(loaded.lazy_optional.lazy_get_optional().unwrap(), None);
}

#[test]
fn normal_mode_rejects_a_missing_required_deferred_value() {
    let error = load::<DeferredConfig>(Loader::new().without_process_environment())
        .unwrap()
        .materialize(MaterializationMode::Normal)
        .err()
        .unwrap();

    assert!(error.report.has_errors());
    let missing: Vec<_> = error
        .report
        .issues()
        .iter()
        .filter(|issue| issue.kind == IssueKind::MissingRequired)
        .collect();
    // The lazy field and the computed field that reads it both fail.
    assert_eq!(missing.len(), 2);
    assert_eq!(missing[0].variable.as_deref(), Some("APP_NUMBER"));
    assert_eq!(missing[0].field.as_deref(), Some("number"));
    assert_eq!(missing[1].variable.as_deref(), Some("APP_NUMBER"));
    assert_eq!(missing[1].field.as_deref(), Some("label"));
}

fn assert_send_sync<T: Send + Sync>() {}

#[test]
fn loaded_configurations_can_be_shared_between_threads() {
    assert_send_sync::<Loaded<DeferredConfig>>();
    assert_send_sync::<Lazy<u16>>();
    assert_send_sync::<LazyOptional<String>>();
    assert_send_sync::<Computed<String>>();
    assert_send_sync::<Loader>();
}

#[test]
fn a_deferred_field_refuses_a_session_of_another_loader() {
    let loaded = deferred_config();
    let foreign = Arc::new(Runtime::new(Vec::new(), Box::new(NoopReporter), None));
    let mut session = ResolveSession::new(foreign);

    let error = loaded.number.resolve_in(&mut session).err().unwrap();
    assert_eq!(error.kind(), ConfigErrorKind::Internal);
    assert_eq!(
        error.message(),
        "a deferred field was materialized by a different Loader instance"
    );
    assert_eq!(
        loaded
            .lazy_optional
            .resolve_in(&mut session)
            .err()
            .unwrap()
            .kind(),
        ConfigErrorKind::Internal
    );
    assert_eq!(
        loaded.label.resolve_in(&mut session).err().unwrap().kind(),
        ConfigErrorKind::Internal
    );
    assert!(session.finish().is_empty());
}
