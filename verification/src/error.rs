//! Error types used by the public API and custom configuration sources.

use vstd::prelude::*;

use crate::text::{decimal_string, push_str};

verus! {

/// A machine-readable category for a configuration error.
#[derive(Debug, Clone, Copy, PartialEq, Eq, Structural)]
pub enum ConfigErrorKind {
    MissingVariable,
    InvalidValue,
    InvalidKey,
    DotenvSyntax,
    Io,
    Source,
    Computation,
    Internal,
}

/// The mathematical content of a [`ConfigError`].
pub struct ConfigErrorView {
    pub kind: ConfigErrorKind,
    pub key: Option<Seq<char>>,
    pub source: Option<Seq<char>>,
    pub expected_type: Option<Seq<char>>,
    pub message: Seq<char>,
}

pub open spec fn opt_string_view(o: Option<String>) -> Option<Seq<char>> {
    match o {
        Some(s) => Some(s@),
        None => None,
    }
}

pub open spec fn opt_str_view(o: Option<&str>) -> Option<Seq<char>> {
    match o {
        Some(s) => Some(s@),
        None => None,
    }
}

/// A configuration failure with enough context for diagnostics.
///
/// The raw variable value is never stored: configuration values frequently
/// contain passwords and tokens.
#[derive(Debug, Clone, PartialEq, Eq)]
pub struct ConfigError {
    kind: ConfigErrorKind,
    key: Option<String>,
    source: Option<String>,
    expected_type: Option<String>,
    message: String,
}

impl View for ConfigError {
    type V = ConfigErrorView;

    closed spec fn view(&self) -> ConfigErrorView {
        ConfigErrorView {
            kind: self.kind,
            key: opt_string_view(self.key),
            source: opt_string_view(self.source),
            expected_type: opt_string_view(self.expected_type),
            message: self.message@,
        }
    }
}

pub open spec fn error_view(
    kind: ConfigErrorKind,
    key: Option<Seq<char>>,
    source: Option<Seq<char>>,
    expected_type: Option<Seq<char>>,
    message: Seq<char>,
) -> ConfigErrorView {
    ConfigErrorView { kind, key, source, expected_type, message }
}

pub open spec fn missing_message() -> Seq<char> {
    "[!!] Required variable is missing"@
}

pub open spec fn invalid_value_message() -> Seq<char> {
    "[!!] Value cannot be parsed as the expected type"@
}

pub open spec fn invalid_key_message() -> Seq<char> {
    "[!!] Variable name is not a valid environment key"@
}

pub open spec fn missing_error(key: Seq<char>) -> ConfigErrorView {
    error_view(ConfigErrorKind::MissingVariable, Some(key), None, None, missing_message())
}

pub open spec fn invalid_key_error(key: Seq<char>) -> ConfigErrorView {
    error_view(ConfigErrorKind::InvalidKey, Some(key), None, None, invalid_key_message())
}

pub open spec fn invalid_value_error(key: Seq<char>) -> ConfigErrorView {
    error_view(ConfigErrorKind::InvalidValue, Some(key), None, None, invalid_value_message())
}

pub open spec fn source_error(
    source: Seq<char>,
    key: Option<Seq<char>>,
    message: Seq<char>,
) -> ConfigErrorView {
    error_view(ConfigErrorKind::Source, key, Some(source), None, message)
}

pub open spec fn dotenv_error(source: Seq<char>, message: Seq<char>) -> ConfigErrorView {
    error_view(ConfigErrorKind::DotenvSyntax, None, Some(source), None, message)
}

pub open spec fn io_error(source: Seq<char>, message: Seq<char>) -> ConfigErrorView {
    error_view(ConfigErrorKind::Io, None, Some(source), None, message)
}

pub open spec fn internal_error(message: Seq<char>) -> ConfigErrorView {
    error_view(ConfigErrorKind::Internal, None, None, None, message)
}

/// The value-safe message logged for each kind of error.
pub open spec fn safe_message(kind: ConfigErrorKind) -> Seq<char> {
    match kind {
        ConfigErrorKind::MissingVariable => "[!!] Required variable is missing"@,
        ConfigErrorKind::InvalidValue => "[!!] Variable has an invalid value"@,
        ConfigErrorKind::InvalidKey => "[!!] Variable name is invalid"@,
        ConfigErrorKind::DotenvSyntax => "[!!] Dotenv file contains invalid syntax"@,
        ConfigErrorKind::Io => "[!!] Configuration file cannot be read"@,
        ConfigErrorKind::Source => "[!!] Configuration source failed"@,
        ConfigErrorKind::Computation => "[!!] Computed field failed"@,
        ConfigErrorKind::Internal => "[!!] Internal configuration error"@,
    }
}

/// The name of a kind, as `{:?}` prints it.
pub open spec fn kind_name(kind: ConfigErrorKind) -> Seq<char> {
    match kind {
        ConfigErrorKind::MissingVariable => "MissingVariable"@,
        ConfigErrorKind::InvalidValue => "InvalidValue"@,
        ConfigErrorKind::InvalidKey => "InvalidKey"@,
        ConfigErrorKind::DotenvSyntax => "DotenvSyntax"@,
        ConfigErrorKind::Io => "Io"@,
        ConfigErrorKind::Source => "Source"@,
        ConfigErrorKind::Computation => "Computation"@,
        ConfigErrorKind::Internal => "Internal"@,
    }
}

/// The human-readable text of an error:
/// ``configuration error (Kind) for `key` in `source`, expected `type`: message``.
pub open spec fn describe_error(e: ConfigErrorView) -> Seq<char> {
    let head = "configuration error ("@ + kind_name(e.kind) + ")"@;
    let with_key = match e.key {
        Some(k) => head + " for `"@ + k + "`"@,
        None => head,
    };
    let with_source = match e.source {
        Some(s) => with_key + " in `"@ + s + "`"@,
        None => with_key,
    };
    let with_type = match e.expected_type {
        Some(t) => with_source + ", expected `"@ + t + "`"@,
        None => with_source,
    };
    with_type + ": "@ + e.message
}

fn opt_to_string(o: Option<&str>) -> (r: Option<String>)
    ensures
        opt_string_view(r) == opt_str_view(o),
{
    match o {
        Some(s) => Some(s.to_owned()),
        None => None,
    }
}

fn opt_clone(o: &Option<String>) -> (r: Option<String>)
    ensures
        opt_string_view(r) == opt_string_view(*o),
{
    match o {
        Some(s) => Some(s.clone()),
        None => None,
    }
}

fn opt_as_str(o: &Option<String>) -> (r: Option<&str>)
    ensures
        opt_str_view(r) == opt_string_view(*o),
{
    match o {
        Some(s) => Some(s.as_str()),
        None => None,
    }
}

impl ConfigError {
    fn new(
        kind: ConfigErrorKind,
        key: Option<&str>,
        source: Option<&str>,
        expected_type: Option<&str>,
        message: String,
    ) -> (e: Self)
        ensures
            e@ == error_view(
                kind,
                opt_str_view(key),
                opt_str_view(source),
                opt_str_view(expected_type),
                message@,
            ),
    {
        ConfigError {
            kind,
            key: opt_to_string(key),
            source: opt_to_string(source),
            expected_type: opt_to_string(expected_type),
            message,
        }
    }

    pub fn missing(key: &str) -> (e: Self)
        ensures
            e@ == missing_error(key@),
    {
        Self::new(
            ConfigErrorKind::MissingVariable,
            Some(key),
            None,
            None,
            "[!!] Required variable is missing".to_owned(),
        )
    }

    pub fn invalid_value(key: &str) -> (e: Self)
        ensures
            e@ == invalid_value_error(key@),
    {
        Self::new(
            ConfigErrorKind::InvalidValue,
            Some(key),
            None,
            None,
            "[!!] Value cannot be parsed as the expected type".to_owned(),
        )
    }

    pub fn invalid_key(key: &str) -> (e: Self)
        ensures
            e@ == invalid_key_error(key@),
    {
        Self::new(
            ConfigErrorKind::InvalidKey,
            Some(key),
            None,
            None,
            "[!!] Variable name is not a valid environment key".to_owned(),
        )
    }

    pub fn dotenv(source: &str, message: String) -> (e: Self)
        ensures
            e@ == dotenv_error(source@, message@),
    {
        Self::new(ConfigErrorKind::DotenvSyntax, None, Some(source), None, message)
    }

    pub fn io(source: &str, message: &str) -> (e: Self)
        ensures
            e@ == io_error(source@, message@),
    {
        Self::new(ConfigErrorKind::Io, None, Some(source), None, message.to_owned())
    }

    pub fn source(source: &str, key: Option<&str>, message: &str) -> (e: Self)
        ensures
            e@ == source_error(source@, opt_str_view(key), message@),
    {
        Self::new(ConfigErrorKind::Source, key, Some(source), None, message.to_owned())
    }

    /// Creates an error returned by a user-provided computed field.
    pub fn computation(name: &str, message: &str) -> (e: Self)
        ensures
            e@ == error_view(ConfigErrorKind::Computation, Some(name@), None, None, message@),
    {
        Self::new(ConfigErrorKind::Computation, Some(name), None, None, message.to_owned())
    }

    pub fn internal(message: &str) -> (e: Self)
        ensures
            e@ == internal_error(message@),
    {
        Self::new(ConfigErrorKind::Internal, None, None, None, message.to_owned())
    }

    /// A copy with the same content.
    pub fn duplicate(&self) -> (e: Self)
        ensures
            e@ == self@,
    {
        ConfigError {
            kind: self.kind,
            key: opt_clone(&self.key),
            source: opt_clone(&self.source),
            expected_type: opt_clone(&self.expected_type),
            message: self.message.clone(),
        }
    }

    pub fn kind(&self) -> (k: ConfigErrorKind)
        ensures
            k == self@.kind,
    {
        self.kind
    }

    pub fn key(&self) -> (k: Option<&str>)
        ensures
            opt_str_view(k) == self@.key,
    {
        opt_as_str(&self.key)
    }

    pub fn source_name(&self) -> (s: Option<&str>)
        ensures
            opt_str_view(s) == self@.source,
    {
        opt_as_str(&self.source)
    }

    pub fn expected_type(&self) -> (t: Option<&str>)
        ensures
            opt_str_view(t) == self@.expected_type,
    {
        opt_as_str(&self.expected_type)
    }

    pub fn message(&self) -> (m: &str)
        ensures
            m@ == self@.message,
    {
        self.message.as_str()
    }

    /// Returns a value-safe message suitable for automatic logging: it never
    /// contains the raw environment value or a parser's text.
    pub fn safe_log_message(&self) -> (m: &'static str)
        ensures
            m@ == safe_message(self@.kind),
    {
        match self.kind {
            ConfigErrorKind::MissingVariable => "[!!] Required variable is missing",
            ConfigErrorKind::InvalidValue => "[!!] Variable has an invalid value",
            ConfigErrorKind::InvalidKey => "[!!] Variable name is invalid",
            ConfigErrorKind::DotenvSyntax => "[!!] Dotenv file contains invalid syntax",
            ConfigErrorKind::Io => "[!!] Configuration file cannot be read",
            ConfigErrorKind::Source => "[!!] Configuration source failed",
            ConfigErrorKind::Computation => "[!!] Computed field failed",
            ConfigErrorKind::Internal => "[!!] Internal configuration error",
        }
    }

    /// The human-readable description of this error.
    pub fn describe(&self) -> (s: String)
        ensures
            s@ == describe_error(self@),
    {
        let mut s = "configuration error (".to_owned();
        push_str(&mut s, kind_text(self.kind));
        push_str(&mut s, ")");
        match &self.key {
            Some(k) => {
                push_str(&mut s, " for `");
                push_str(&mut s, k.as_str());
                push_str(&mut s, "`");
            },
            None => {},
        }
        match &self.source {
            Some(src) => {
                push_str(&mut s, " in `");
                push_str(&mut s, src.as_str());
                push_str(&mut s, "`");
            },
            None => {},
        }
        match &self.expected_type {
            Some(t) => {
                push_str(&mut s, ", expected `");
                push_str(&mut s, t.as_str());
                push_str(&mut s, "`");
            },
            None => {},
        }
        push_str(&mut s, ": ");
        push_str(&mut s, self.message.as_str());
        s
    }
}

fn kind_text(kind: ConfigErrorKind) -> (s: &'static str)
    ensures
        s@ == kind_name(kind),
{
    match kind {
        ConfigErrorKind::MissingVariable => "MissingVariable",
        ConfigErrorKind::InvalidValue => "InvalidValue",
        ConfigErrorKind::InvalidKey => "InvalidKey",
        ConfigErrorKind::DotenvSyntax => "DotenvSyntax",
        ConfigErrorKind::Io => "Io",
        ConfigErrorKind::Source => "Source",
        ConfigErrorKind::Computation => "Computation",
        ConfigErrorKind::Internal => "Internal",
    }
}

/// An error returned by a custom [`crate::source::Source`].
#[derive(Debug, Clone, PartialEq, Eq)]
pub struct SourceError {
    message: String,
}

impl View for SourceError {
    type V = Seq<char>;

    closed spec fn view(&self) -> Seq<char> {
        self.message@
    }
}

impl SourceError {
    pub fn new(message: &str) -> (e: Self)
        ensures
            e@ == message@,
    {
        SourceError { message: message.to_owned() }
    }

    pub fn from_string(message: String) -> (e: Self)
        ensures
            e@ == message@,
    {
        SourceError { message }
    }

    pub fn message(&self) -> (m: &str)
        ensures
            m@ == self@,
    {
        self.message.as_str()
    }

    pub fn duplicate(&self) -> (e: Self)
        ensures
            e@ == self@,
    {
        SourceError { message: self.message.clone() }
    }
}

/// The number of a line, written in decimal, is used in dotenv messages.
pub fn line_label(line_number: usize) -> (s: String)
    ensures
        s@ == "line "@ + crate::text::decimal(line_number as nat),
{
    let mut s = "line ".to_owned();
    let d = decimal_string(line_number);
    push_str(&mut s, d.as_str());
    s
}

} // verus!
