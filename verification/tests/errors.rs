//! Load errors of a full configuration: unreadable and malformed dotenv files,
//! invalid and missing values, failing computations.

use bui_env_loader::source::ProcessEnvSource;
use bui_env_loader::{
    Computed, ConfigContext, ConfigError, ConfigErrorKind, DotenvInput, EnvConfig, Lazy, LazyOptional,
    Loaded, Loader, ResolveSession,
};

fn fixture(path: &str) -> Option<&'static str> {
    match path {
        "./tests/.env.test" => Some(
            "APP_HOST=127.0.0.1\nAPP_PORT=8080\nAPP_TOKEN=development-token\nAPP_LOG_LEVEL=debug\n",
        ),
        "./tests/.env.test_extra" => {
            Some("APP_WORKERS=5\nAPP_METRICS_ENDPOINT=http://127.0.0.1:8080/metrics\n")
        }
        "./tests/.env.test_malformed" => Some("APP_HOST=127.0.0.1\nthis line is not an assignment\n"),
        "./tests/.env.test_bad" => Some("APP_HOST=127.0.0.1\nAPP_PORT=8080\nAPP_WORKERS=many\n"),
        _ => None,
    }
}

fn load<C: EnvConfig>(loader: Loader) -> Result<Loaded<C>, ConfigError> {
    let dotenv = loader
        .dotenv_files()
        .iter()
        .map(|file| match fixture(&file.path) {
            Some(text) => DotenvInput::Contents {
                name: file.path.clone(),
                text: text.to_owned(),
            },
            None if !file.required => DotenvInput::Absent,
            None => DotenvInput::Unreadable {
                name: file.path.clone(),
                message: "No such file or directory (os error 2)".to_owned(),
            },
        })
        .collect();
    let environment = if loader.includes_process_environment() {
        Some(ProcessEnvSource::from_environment(Vec::new()))
    } else {
        None
    };
    loader.load_from::<C>(environment, dotenv)
}

/// Every field is read before the first error is returned.
pub struct AppConfig {
    pub host: String,
    pub port: u16,
    pub token: Option<String>,
    pub workers: usize,
    pub log_level: Lazy<String>,
    pub metrics_endpoint: LazyOptional<String>,
    pub bad_computed: Computed<String>,
}

impl EnvConfig for AppConfig {
    fn from_env(context: &mut ConfigContext) -> Result<Self, ConfigError> {
        let host = context.get::<String>("APP_HOST");
        let port = context.get::<u16>("APP_PORT");
        let token = context.get_optional::<String>("APP_TOKEN");
        let workers = context.get_or::<usize>("APP_WORKERS", 4);
        let log_level = context.lazy_get::<String>("APP_LOG_LEVEL");
        let metrics_endpoint = context.lazy_get_optional::<String>("APP_METRICS_ENDPOINT");
        let bad_computed = Ok::<Computed<String>, ConfigError>(context.get_computed::<String, _>(
            "bad_computed",
            |_: &mut ResolveSession| {
                Err(ConfigError::computation(
                    "bad_computed",
                    "Failed to compute bad_computed due to missing APP_HOST or APP_PORT",
                ))
            },
        ));

        let first_error = [
            host.as_ref().err(),
            port.as_ref().err(),
            token.as_ref().err(),
            workers.as_ref().err(),
            log_level.as_ref().err(),
            metrics_endpoint.as_ref().err(),
            bad_computed.as_ref().err(),
        ]
        .into_iter()
        .flatten()
        .next()
        .cloned();
        if let Some(error) = first_error {
            return Err(error);
        }

        Ok(Self {
            host: host.unwrap(),
            port: port.unwrap(),
            token: token.unwrap(),
            workers: workers.unwrap(),
            log_level: log_level.unwrap(),
            metrics_endpoint: metrics_endpoint.unwrap(),
            bad_computed: bad_computed.unwrap(),
        })
    }
}

#[test]
fn loading_error_test() {
    let config = load::<AppConfig>(
        Loader::new()
            .add_dotenv("./tests/.env.test_non_existent")
            .prefix("APP_"),
    );
    assert!(config.is_err());
    let e = config.err().expect("Should have an error");
    assert_eq!(e.kind(), ConfigErrorKind::Io);
}

#[test]
fn malformed_error_test() {
    let config = load::<AppConfig>(
        Loader::new()
            .add_dotenv("./tests/.env.test_malformed")
            .prefix("APP_"),
    );
    assert!(config.is_err());
    let e = config.err().expect("Should have an error");
    assert_eq!(e.kind(), ConfigErrorKind::DotenvSyntax);
}

#[test]
fn invalid_value_error_test() {
    let config = load::<AppConfig>(Loader::new().add_dotenv("./tests/.env.test_bad").prefix("APP_"));
    assert!(config.is_err());
    let e = config.err().expect("Should have an error");
    assert_eq!(e.kind(), ConfigErrorKind::InvalidValue);
}

#[test]
fn missing_value_error_test() {
    let config = load::<AppConfig>(
        Loader::new()
            .prefix("APP_")
            .set("APP_PORT", "8080")
            .set("APP_TOKEN", "development-token"),
    );
    assert!(config.is_err());
    let e = config.err().expect("Should have an error");
    assert_eq!(e.kind(), ConfigErrorKind::MissingVariable);
}

#[test]
fn computation_error_test() {
    let config = load::<AppConfig>(
        Loader::new()
            .add_dotenv("./tests/.env.test")
            .add_dotenv("./tests/.env.test_extra")
            .prefix("APP_"),
    );

    let cmp = config.ok().unwrap().bad_computed.get();
    assert!(cmp.is_err());
    let e = cmp.err().expect("Should have an error");
    assert_eq!(e.kind(), ConfigErrorKind::Computation);
}

#[test]
fn error_messages_never_hold_the_value() {
    let e = load::<AppConfig>(Loader::new().add_dotenv("./tests/.env.test_bad").prefix("APP_"))
        .err()
        .unwrap();

    assert_eq!(e.key(), Some("APP_WORKERS"));
    assert!(!e.describe().contains("many"));
    assert!(!e.message().contains("many"));
    assert_eq!(e.safe_log_message(), "[!!] Variable has an invalid value");
}

#[test]
fn a_malformed_file_error_names_the_line() {
    let e = load::<AppConfig>(
        Loader::new()
            .add_dotenv("./tests/.env.test_malformed")
            .prefix("APP_"),
    )
    .err()
    .unwrap();

    assert_eq!(e.source_name(), Some("./tests/.env.test_malformed"));
    assert_eq!(e.message(), "line 2: [!] Expected `KEY=value`");
}

#[test]
fn each_error_kind_has_its_constructor() {
    assert_eq!(ConfigError::missing("A").kind(), ConfigErrorKind::MissingVariable);
    assert_eq!(ConfigError::invalid_value("A").kind(), ConfigErrorKind::InvalidValue);
    assert_eq!(ConfigError::invalid_key("a-b").kind(), ConfigErrorKind::InvalidKey);
    assert_eq!(
        ConfigError::dotenv("f.env", "line 1: x".to_owned()).kind(),
        ConfigErrorKind::DotenvSyntax
    );
    assert_eq!(ConfigError::io("f.env", "gone").kind(), ConfigErrorKind::Io);
    assert_eq!(ConfigError::source("vault", Some("A"), "down").kind(), ConfigErrorKind::Source);
    assert_eq!(ConfigError::computation("url", "bad").kind(), ConfigErrorKind::Computation);
    assert_eq!(ConfigError::internal("oops").kind(), ConfigErrorKind::Internal);

    let missing = ConfigError::missing("APP_PORT");
    assert_eq!(missing.key(), Some("APP_PORT"));
    assert_eq!(missing.source_name(), None);
    assert_eq!(missing.expected_type(), None);
}
