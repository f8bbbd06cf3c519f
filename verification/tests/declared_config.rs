//! A full configuration of every field kind, written out by hand, read from
//! dotenv files and from a map source and then materialized.

use bui_env_loader::source::{MapSource, ProcessEnvSource, Source};
use bui_env_loader::{
    Computed, ConfigContext, ConfigError, DotenvInput, EnvConfig, Event, Lazy, LazyOptional, Loaded,
    Loader, MaterializationContext, MaterializationMode, Materialize, Materialized, ResolveSession,
};

fn fixture(path: &str) -> Option<&'static str> {
    match path {
        "./tests/.env.test" => Some(
            "APP_HOST=127.0.0.1\nAPP_PORT=8080\nAPP_TOKEN=development-token\nAPP_LOG_LEVEL=debug\n",
        ),
        "./tests/.env.test_extra" => {
            Some("APP_WORKERS=5\nAPP_METRICS_ENDPOINT=http://127.0.0.1:8080/metrics\n")
        }
        _ => None,
    }
}

fn load<C: EnvConfig>(loader: Loader) -> Result<Loaded<C>, ConfigError> {
    let dotenv = loader
        .dotenv_files()
        .iter()
        .map(|file| match fixture(&file.path) {
            Some(text) => DotenvInput::Contents {
                name: file.path.clone(),
                text: text.to_owned(),
            },
            None if !file.required => DotenvInput::Absent,
            None => DotenvInput::Unreadable {
                name: file.path.clone(),
                message: "No such file or directory (os error 2)".to_owned(),
            },
        })
        .collect();
    let environment = if loader.includes_process_environment() {
        Some(ProcessEnvSource::from_environment(Vec::new()))
    } else {
        None
    };
    loader.load_from::<C>(environment, dotenv)
}

pub struct AppConfig {
    pub host: String,
    pub port: u16,
    pub token: Option<String>,
    pub workers: usize,
    pub log_level: Lazy<String>,
    pub metrics_endpoint: LazyOptional<String>,
    pub public_url: Computed<String>,
}

pub struct AppConfigSnapshot {
    pub host: String,
    pub port: u16,
    pub token: Option<String>,
    pub workers: usize,
    pub log_level: String,
    pub metrics_endpoint: Option<String>,
    pub public_url: String,
}

impl EnvConfig for AppConfig {
    fn from_env(context: &mut ConfigContext) -> Result<Self, ConfigError> {
        let host = context.get::<String>("APP_HOST");
        let port = context.get::<u16>("APP_PORT");
        let token = context.get_optional::<String>("APP_TOKEN");
        let workers = context.get_or::<usize>("APP_WORKERS", 4);
        let log_level = context.lazy_get::<String>("APP_LOG_LEVEL");
        let metrics_endpoint = context.lazy_get_optional::<String>("APP_METRICS_ENDPOINT");
        let public_url = Ok::<Computed<String>, ConfigError>(context.get_computed::<String, _>(
            "public_url",
            |session: &mut ResolveSession| {
                let host = session.get::<String>("APP_HOST")?;
                let port = session.get::<u16>("APP_PORT")?;
                Ok(format!("http://{host}:{port}"))
            },
        ));

        let first_error = [
            host.as_ref().err(),
            port.as_ref().err(),
            token.as_ref().err(),
            workers.as_ref().err(),
            log_level.as_ref().err(),
            metrics_endpoint.as_ref().err(),
            public_url.as_ref().err(),
        ]
        .into_iter()
        .flatten()
        .next()
        .cloned();
        if let Some(error) = first_error {
            return Err(error);
        }

        Ok(Self {
            host: host.unwrap(),
            port: port.unwrap(),
            token: token.unwrap(),
            workers: workers.unwrap(),
            log_level: log_level.unwrap(),
            metrics_endpoint: metrics_endpoint.unwrap(),
            public_url: public_url.unwrap(),
        })
    }
}

impl Materialize for AppConfig {
    type Output = AppConfigSnapshot;

    fn materialize(&self, context: &mut MaterializationContext<'_>) -> Option<Self::Output> {
        let host = Some(self.host.clone());
        let port = Some(self.port);
        let token = Some(self.token.clone());
        let workers = Some(self.workers);
        let log_level = context.lazy("log_level", &self.log_level);
        let metrics_endpoint = context.lazy_optional("metrics_endpoint", &self.metrics_endpoint);
        let public_url = context.computed("public_url", &self.public_url);

        match (host, port, token, workers, log_level, metrics_endpoint, public_url) {
            (
                Some(host),
                Some(port),
                Some(token),
                Some(workers),
                Some(log_level),
                Some(metrics_endpoint),
                Some(public_url),
            ) => Some(AppConfigSnapshot {
                host,
                port,
                token,
                workers,
                log_level,
                metrics_endpoint,
                public_url,
            }),
            _ => None,
        }
    }
}

#[test]
fn simple_macro_test_with_single_dotenv() {
    let config = load::<AppConfig>(
        Loader::new()
            .add_dotenv("./tests/.env.test")
            .prefix("APP_")
            .reporter(|event: &Event<'_>| {
                println!("{:?} {:?}: {}", event.level, event.kind, event.message);
            }),
    )
    .unwrap();

    // regular non-lazy fields
    assert_eq!(config.host, "127.0.0.1");
    assert_eq!(config.port, 8080);
    assert_eq!(config.workers, 4);

    // Optional eager-fields.
    assert!(config.token.is_some());

    assert_eq!(config.log_level.get().unwrap(), "debug");

    assert_eq!(config.public_url.get().unwrap(), "http://127.0.0.1:8080");
}

#[test]
fn simple_macro_test_with_multiple_dotenvs() {
    let config: Loaded<AppConfig> = load(
        Loader::new()
            .add_dotenv("./tests/.env.test")
            .add_dotenv_optional("./tests/.env.test_extra")
            .prefix("APP_")
            .reporter(|event: &Event<'_>| {
                println!("{:?} {:?}: {}", event.level, event.kind, event.message);
            }),
    )
    .unwrap();

    let materialized = config.materialize(MaterializationMode::Warn).ok().unwrap();

    let snapshot: AppConfigSnapshot = materialized.value;

    assert_eq!(config.host, "127.0.0.1");
    assert_eq!(config.port, 8080);
    assert_eq!(config.workers, 5);
    assert_eq!(config.log_level.get().unwrap(), "debug");

    assert_eq!(snapshot.public_url, "http://127.0.0.1:8080");
    assert_eq!(
        snapshot.metrics_endpoint,
        Some("http://127.0.0.1:8080/metrics".to_string())
    );
    assert_eq!(snapshot.token, Some("development-token".to_string()));
    assert_eq!(
        snapshot.metrics_endpoint,
        config.metrics_endpoint.lazy_get_optional().unwrap()
    );

    for issue in materialized.report.issues() {
        println!("issue: {:?}, variable: {:?}", issue.kind, issue.variable);
    }
}

#[test]
fn materializes_test_config() {
    let source = MapSource::new("test")
        .with("APP_HOST", "localhost")
        .with("APP_PORT", "3000")
        .with("APP_LOG_LEVEL", "info")
        .with("APP_WORKERS", "4");

    let check_source = source.clone();
    let k = check_source
        .keys()
        .expect("should contain keys")
        .expect("Should be non empty");

    let v = check_source
        .values()
        .expect("should contain values")
        .expect("Should be non empty");

    assert_eq!(k.len(), 4);
    assert_eq!(v.len(), 4);

    let config = load::<AppConfig>(Loader::new().without_process_environment().source(source))
        .ok()
        .expect("Configuration should load");

    let snapshot: Materialized<AppConfigSnapshot> = config
        .materialize(MaterializationMode::Normal)
        .ok()
        .expect("Configuration should materialize");

    assert_eq!(snapshot.report.has_errors(), false);
    assert_eq!(snapshot.report.is_clean(), false);

    assert_eq!(snapshot.value.host, "localhost");
    assert_eq!(snapshot.value.port, 3000);
    assert_eq!(snapshot.value.public_url, "http://localhost:3000");
}

#[test]
fn a_strict_snapshot_of_a_complete_configuration_is_clean() {
    let config = load::<AppConfig>(
        Loader::new()
            .without_process_environment()
            .add_dotenv("./tests/.env.test")
            .add_dotenv("./tests/.env.test_extra")
            .prefix("APP_"),
    )
    .unwrap();

    let snapshot = config.materialize(MaterializationMode::Strict).ok().unwrap();
    assert!(snapshot.report.is_clean());
    assert_eq!(snapshot.value.workers, 5);
    assert_eq!(snapshot.value.log_level, "debug");
}
