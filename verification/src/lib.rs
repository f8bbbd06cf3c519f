//! A small environment-configuration loader with verified dotenv parsing,
//! source precedence and materialization rules.
//!
//! The usual flow is:
//!
//! 1. Implement [`EnvConfig`] for an application-specific structure.
//! 2. Construct it with [`Loader::load_from`].
//! 3. Read deferred values through [`Lazy::get`] or [`Computed::get`].
//! 4. Optionally turn the whole configuration into an immutable snapshot with
//!    [`Loaded::materialize`].

pub mod context;
pub mod deferred;
pub mod error;
pub mod loader;
pub mod materialize;
pub mod reporter;
pub mod resolver;
pub mod source;
pub mod table;
pub mod text;

pub use context::{ConfigContext, EnvConfig};
pub use deferred::{Computed, Lazy, LazyOptional};
pub use error::{ConfigError, ConfigErrorKind, SourceError};
pub use loader::{DotenvFile, DotenvInput, Loaded, Loader};
pub use materialize::{
    IssueKind, IssueSeverity, MaterializationContext, MaterializationError, MaterializationIssue,
    MaterializationMode, MaterializationReport, Materialize, Materialized,
};
pub use reporter::{Event, EventKind, Level, NoopReporter, Reporter};
pub use resolver::ResolveSession;
