//! Materialization: issues, reports, modes and the decision whether a
//! snapshot is accepted.

use vstd::prelude::*;

use std::str::FromStr;
use std::sync::Arc;

use crate::deferred::{computed_resolved, lazy_optional_resolved, lazy_resolved, Computed, Lazy, LazyOptional};
use crate::error::{opt_string_view, safe_message, ConfigError, ConfigErrorKind, ConfigErrorView};
use crate::resolver::{ResolveSession, Runtime, SessionView};
use crate::reporter::{event_view, events_view, Event, EventKind, EventView, Level};
use crate::table::strings_view;
use crate::text::{decimal, decimal_string, push_str};

verus! {

/// Mutually exclusive behavior used when a complete snapshot is created.
#[derive(Debug, Clone, Copy, PartialEq, Eq, Default, Structural)]
pub enum MaterializationMode {
    /// Silent for non-fatal discrepancies. Fatal errors are still reported.
    #[default]
    Normal,
    /// Additionally reports missing optional variables at `Info` level.
    Notify,
    /// Reports every discrepancy, while tolerating non-fatal ones.
    Warn,
    /// Reports every discrepancy and rejects a snapshot if any issue exists.
    Strict,
}

/// Whether an issue is informational, suspicious, or prevents a value.
#[derive(Debug, Clone, Copy, PartialEq, Eq, PartialOrd, Ord, Structural)]
pub enum IssueSeverity {
    Notice,
    Warning,
    Error,
}

/// A stable category for programmatic inspection of materialization reports.
#[derive(Debug, Clone, Copy, PartialEq, Eq, Hash, Structural)]
pub enum IssueKind {
    MissingOptional,
    MissingRequired,
    DefaultUsed,
    UnknownVariable,
    DuplicateVariable,
    InvalidValue,
    ComputationFailed,
    SourceFailed,
    Internal,
}

/// A value-safe discrepancy found while resolving configuration.
#[derive(Debug, Clone, PartialEq, Eq)]
pub struct MaterializationIssue {
    pub field: Option<String>,
    pub variable: Option<String>,
    pub source: Option<String>,
    pub expected_type: Option<String>,
    pub kind: IssueKind,
    pub severity: IssueSeverity,
    pub message: String,
}

pub struct IssueView {
    pub field: Option<Seq<char>>,
    pub variable: Option<Seq<char>>,
    pub source: Option<Seq<char>>,
    pub expected_type: Option<Seq<char>>,
    pub kind: IssueKind,
    pub severity: IssueSeverity,
    pub message: Seq<char>,
}

impl View for MaterializationIssue {
    type V = IssueView;

    open spec fn view(&self) -> IssueView {
        IssueView {
            field: opt_string_view(self.field),
            variable: opt_string_view(self.variable),
            source: opt_string_view(self.source),
            expected_type: opt_string_view(self.expected_type),
            kind: self.kind,
            severity: self.severity,
            message: self.message@,
        }
    }
}

pub open spec fn issues_view(v: Seq<MaterializationIssue>) -> Seq<IssueView> {
    v.map_values(|i: MaterializationIssue| i@)
}

pub open spec fn issue_view(
    field: Option<Seq<char>>,
    variable: Option<Seq<char>>,
    source: Option<Seq<char>>,
    expected_type: Option<Seq<char>>,
    kind: IssueKind,
    severity: IssueSeverity,
    message: Seq<char>,
) -> IssueView {
    IssueView { field, variable, source, expected_type, kind, severity, message }
}

pub open spec fn missing_optional_issue(key: Seq<char>) -> IssueView {
    issue_view(None, Some(key), None, None, IssueKind::MissingOptional, IssueSeverity::Notice,
        "[*] Optional variable is missing"@)
}

pub open spec fn default_used_issue(key: Seq<char>) -> IssueView {
    issue_view(None, Some(key), None, None, IssueKind::DefaultUsed, IssueSeverity::Notice,
        "[*] Default value was used"@)
}

/// `parts` joined by `sep`.
pub open spec fn join(parts: Seq<Seq<char>>, sep: Seq<char>) -> Seq<char>
    decreases parts.len(),
{
    if parts.len() == 0 {
        seq![]
    } else if parts.len() == 1 {
        parts[0]
    } else {
        join(parts.drop_last(), sep) + sep + parts.last()
    }
}

pub open spec fn duplicate_issue(key: Seq<char>, sources: Seq<Seq<char>>) -> IssueView {
    issue_view(None, Some(key), Some(join(sources, ", "@)), None, IssueKind::DuplicateVariable,
        IssueSeverity::Warning,
        "[!] Variable exists in more than one source; the highest-priority source won"@)
}

pub open spec fn duplicate_in_source_issue(key: Seq<char>, source: Seq<char>) -> IssueView {
    issue_view(None, Some(key), Some(source), None, IssueKind::DuplicateVariable,
        IssueSeverity::Warning,
        "[!] Variable is declared more than once in the same source; the last value won"@)
}

pub open spec fn unknown_issue(key: Seq<char>, source: Seq<char>) -> IssueView {
    issue_view(None, Some(key), Some(source), None, IssueKind::UnknownVariable,
        IssueSeverity::Warning,
        "[!] Variable is present in a source but is not declared by the configuration"@)
}

/// The issue kind that an error kind becomes.
pub open spec fn issue_kind_of(kind: ConfigErrorKind) -> IssueKind {
    match kind {
        ConfigErrorKind::MissingVariable => IssueKind::MissingRequired,
        ConfigErrorKind::InvalidValue => IssueKind::InvalidValue,
        ConfigErrorKind::InvalidKey => IssueKind::InvalidValue,
        ConfigErrorKind::Computation => IssueKind::ComputationFailed,
        ConfigErrorKind::Source => IssueKind::SourceFailed,
        ConfigErrorKind::Io => IssueKind::SourceFailed,
        ConfigErrorKind::DotenvSyntax => IssueKind::Internal,
        ConfigErrorKind::Internal => IssueKind::Internal,
    }
}

/// An error as an issue: always of `Error` severity, with the value-safe message.
pub open spec fn issue_from_error(field: Option<Seq<char>>, e: ConfigErrorView) -> IssueView {
    issue_view(field, e.key, e.source, e.expected_type, issue_kind_of(e.kind),
        IssueSeverity::Error, safe_message(e.kind))
}

pub open spec fn internal_issue(message: Seq<char>) -> IssueView {
    issue_view(None, None, None, None, IssueKind::Internal, IssueSeverity::Error, message)
}

pub open spec fn no_value_message() -> Seq<char> {
    "[!!] The Materialize implementation returned no value without recording an error"@
}

/// `issues` with `issue` appended unless it is already there.
pub open spec fn push_unique(issues: Seq<IssueView>, issue: IssueView) -> Seq<IssueView> {
    if issues.contains(issue) {
        issues
    } else {
        issues.push(issue)
    }
}

/// The issues in order of first occurrence, each once.
pub open spec fn dedup(issues: Seq<IssueView>) -> Seq<IssueView>
    decreases issues.len(),
{
    if issues.len() == 0 {
        seq![]
    } else {
        push_unique(dedup(issues.drop_last()), issues.last())
    }
}

pub open spec fn unique_issues(issues: Seq<IssueView>) -> bool {
    forall|i: int, j: int| 0 <= i < j < issues.len() ==> #[trigger] issues[i] != #[trigger] issues[j]
}

pub open spec fn has_error(issues: Seq<IssueView>) -> bool {
    exists|i: int| 0 <= i < issues.len() && (#[trigger] issues[i]).severity == IssueSeverity::Error
}

/// The issues of an attempt: a missing value that no error explains is an
/// internal issue of its own.
pub open spec fn collected_issues(value_present: bool, issues: Seq<IssueView>) -> Seq<IssueView> {
    if !value_present && !has_error(issues) {
        issues.push(internal_issue(no_value_message()))
    } else {
        issues
    }
}

pub open spec fn final_report(value_present: bool, issues: Seq<IssueView>) -> Seq<IssueView> {
    dedup(collected_issues(value_present, issues))
}

/// A report is rejected when it holds an error, or in Strict mode when it
/// holds anything.
pub open spec fn is_rejected(mode: MaterializationMode, report: Seq<IssueView>) -> bool {
    has_error(report) || (mode == MaterializationMode::Strict && report.len() > 0)
}

/// The level at which an issue is reported in a mode, or `None` when the mode
/// keeps it silent.
pub open spec fn log_level_for(mode: MaterializationMode, issue: IssueView) -> Option<Level> {
    let shown = match mode {
        MaterializationMode::Normal => issue.severity == IssueSeverity::Error,
        MaterializationMode::Notify => issue.severity == IssueSeverity::Error || issue.kind
            == IssueKind::MissingOptional,
        _ => true,
    };
    if !shown {
        None
    } else if issue.severity == IssueSeverity::Error {
        Some(Level::Error)
    } else if mode == MaterializationMode::Notify {
        Some(Level::Info)
    } else if issue.severity == IssueSeverity::Warning {
        Some(Level::Warn)
    } else {
        Some(Level::Info)
    }
}

pub open spec fn failure_text(count: nat) -> Seq<char> {
    "[!!] Configuration materialization failed with "@ + decimal(count) + " issue(s)"@
}

// ---------------------------------------------------------------------
// Laws of reports.
// ---------------------------------------------------------------------

/// A deduplicated report holds each issue once, and exactly the issues
/// that were collected.
pub proof fn law_dedup_keeps_each_issue_once(issues: Seq<IssueView>)
    ensures
        unique_issues(dedup(issues)),
        forall|x: IssueView| dedup(issues).contains(x) <==> issues.contains(x),
    decreases issues.len(),
{
    if issues.len() > 0 {
        let rest = issues.drop_last();
        law_dedup_keeps_each_issue_once(rest);
        let d = dedup(rest);
        let last = issues.last();
        assert forall|x: IssueView| dedup(issues).contains(x) <==> issues.contains(x) by {
            if issues.contains(x) {
                let k = choose|k: int| 0 <= k < issues.len() && issues[k] == x;
                if k < issues.len() - 1 {
                    assert(rest[k] == x);
                }
            }
            if rest.contains(x) {
                let k = choose|k: int| 0 <= k < rest.len() && rest[k] == x;
                assert(issues[k] == x);
            }
            if d.contains(x) && !d.contains(last) {
                let k = choose|k: int| 0 <= k < d.len() && d[k] == x;
                assert(d.push(last)[k] == x);
            }
            if !d.contains(last) && x == last {
                assert(d.push(last)[d.len() as int] == x);
            }
            if !d.contains(last) && d.push(last).contains(x) {
                let k = choose|k: int| 0 <= k < d.len() + 1 && d.push(last)[k] == x;
                if k < d.len() {
                    assert(d[k] == x);
                }
            }
        }
    }
}

/// The severity of every issue survives deduplication.
pub proof fn lemma_dedup_has_error(issues: Seq<IssueView>)
    ensures
        has_error(dedup(issues)) == has_error(issues),
{
    law_dedup_keeps_each_issue_once(issues);
    let d = dedup(issues);
    if has_error(issues) {
        let i = choose|i: int| 0 <= i < issues.len() && (#[trigger] issues[i]).severity == IssueSeverity::Error;
        assert(issues.contains(issues[i]));
        assert(d.contains(issues[i]));
        let j = choose|j: int| 0 <= j < d.len() && d[j] == issues[i];
        assert(d[j].severity == IssueSeverity::Error);
    }
    if has_error(d) {
        let i = choose|i: int| 0 <= i < d.len() && (#[trigger] d[i]).severity == IssueSeverity::Error;
        assert(d.contains(d[i]));
        assert(issues.contains(d[i]));
        let j = choose|j: int| 0 <= j < issues.len() && issues[j] == d[i];
        assert(issues[j].severity == IssueSeverity::Error);
    }
}

/// A snapshot without a value is always rejected: either an error explains
/// it, or the missing value becomes an internal error.
pub proof fn law_missing_value_is_rejected(mode: MaterializationMode, issues: Seq<IssueView>)
    ensures
        is_rejected(mode, final_report(false, issues)),
        has_error(final_report(false, issues)),
{
    let c = collected_issues(false, issues);
    if !has_error(issues) {
        assert(c[c.len() - 1].severity == IssueSeverity::Error);
    }
    assert(has_error(c));
    lemma_dedup_has_error(c);
}

/// In Normal, Notify and Warn modes a snapshot with a value is rejected
/// exactly when an error was recorded; in Strict mode exactly when anything
/// was recorded.
pub proof fn law_rejection_by_mode(mode: MaterializationMode, issues: Seq<IssueView>)
    ensures
        mode != MaterializationMode::Strict ==> (is_rejected(mode, final_report(true, issues)) <==> has_error(issues)),
        mode == MaterializationMode::Strict ==> (is_rejected(mode, final_report(true, issues)) <==> issues.len() > 0),
{
    lemma_dedup_has_error(issues);
    law_dedup_keeps_each_issue_once(issues);
    let d = dedup(issues);
    if issues.len() > 0 {
        assert(issues.contains(issues[0]));
        assert(d.contains(issues[0]));
    }
    if d.len() > 0 {
        assert(d.contains(d[0]));
    }
}

// ---------------------------------------------------------------------
// Executable issues and reports.
// ---------------------------------------------------------------------

fn opt_copy(o: &Option<String>) -> (r: Option<String>)
    ensures
        opt_string_view(r) == opt_string_view(*o),
{
    match o {
        Some(s) => Some(s.clone()),
        None => None,
    }
}

fn opt_owned(o: Option<&str>) -> (r: Option<String>)
    ensures
        opt_string_view(r) == crate::error::opt_str_view(o),
{
    match o {
        Some(s) => Some(s.to_owned()),
        None => None,
    }
}

fn opt_same(a: &Option<String>, b: &Option<String>) -> (r: bool)
    ensures
        r == (opt_string_view(*a) == opt_string_view(*b)),
{
    match a {
        Some(x) => match b {
            Some(y) => crate::text::str_eq(x.as_str(), y.as_str()),
            None => false,
        },
        None => b.is_none(),
    }
}

impl MaterializationIssue {
    pub fn missing_optional(key: &str) -> (i: Self)
        ensures
            i@ == missing_optional_issue(key@),
    {
        MaterializationIssue {
            field: None,
            variable: Some(key.to_owned()),
            source: None,
            expected_type: None,
            kind: IssueKind::MissingOptional,
            severity: IssueSeverity::Notice,
            message: "[*] Optional variable is missing".to_owned(),
        }
    }

    pub fn default_used(key: &str) -> (i: Self)
        ensures
            i@ == default_used_issue(key@),
    {
        MaterializationIssue {
            field: None,
            variable: Some(key.to_owned()),
            source: None,
            expected_type: None,
            kind: IssueKind::DefaultUsed,
            severity: IssueSeverity::Notice,
            message: "[*] Default value was used".to_owned(),
        }
    }

    pub fn duplicate(key: &str, sources: &Vec<String>) -> (i: Self)
        ensures
            i@ == duplicate_issue(key@, strings_view(sources@)),
    {
        MaterializationIssue {
            field: None,
            variable: Some(key.to_owned()),
            source: Some(join_strings(sources, ", ")),
            expected_type: None,
            kind: IssueKind::DuplicateVariable,
            severity: IssueSeverity::Warning,
            message: "[!] Variable exists in more than one source; the highest-priority source won".to_owned(),
        }
    }

    pub fn duplicate_in_source(key: &str, source: &str) -> (i: Self)
        ensures
            i@ == duplicate_in_source_issue(key@, source@),
    {
        MaterializationIssue {
            field: None,
            variable: Some(key.to_owned()),
            source: Some(source.to_owned()),
            expected_type: None,
            kind: IssueKind::DuplicateVariable,
            severity: IssueSeverity::Warning,
            message: "[!] Variable is declared more than once in the same source; the last value won".to_owned(),
        }
    }

    pub fn unknown(key: &str, source: &str) -> (i: Self)
        ensures
            i@ == unknown_issue(key@, source@),
    {
        MaterializationIssue {
            field: None,
            variable: Some(key.to_owned()),
            source: Some(source.to_owned()),
            expected_type: None,
            kind: IssueKind::UnknownVariable,
            severity: IssueSeverity::Warning,
            message: "[!] Variable is present in a source but is not declared by the configuration".to_owned(),
        }
    }

    pub fn from_error(field: Option<&str>, error: &ConfigError) -> (i: Self)
        ensures
            i@ == issue_from_error(crate::error::opt_str_view(field), error@),
    {
        let kind = match error.kind() {
            ConfigErrorKind::MissingVariable => IssueKind::MissingRequired,
            ConfigErrorKind::InvalidValue => IssueKind::InvalidValue,
            ConfigErrorKind::InvalidKey => IssueKind::InvalidValue,
            ConfigErrorKind::Computation => IssueKind::ComputationFailed,
            ConfigErrorKind::Source => IssueKind::SourceFailed,
            ConfigErrorKind::Io => IssueKind::SourceFailed,
            ConfigErrorKind::DotenvSyntax => IssueKind::Internal,
            ConfigErrorKind::Internal => IssueKind::Internal,
        };
        MaterializationIssue {
            field: opt_owned(field),
            variable: opt_owned(error.key()),
            source: opt_owned(error.source_name()),
            expected_type: opt_owned(error.expected_type()),
            kind,
            severity: IssueSeverity::Error,
            message: error.safe_log_message().to_owned(),
        }
    }

    pub fn internal(message: &str) -> (i: Self)
        ensures
            i@ == internal_issue(message@),
    {
        MaterializationIssue {
            field: None,
            variable: None,
            source: None,
            expected_type: None,
            kind: IssueKind::Internal,
            severity: IssueSeverity::Error,
            message: message.to_owned(),
        }
    }

    /// A copy with the same content.
    pub fn copy(&self) -> (i: Self)
        ensures
            i@ == self@,
    {
        MaterializationIssue {
            field: opt_copy(&self.field),
            variable: opt_copy(&self.variable),
            source: opt_copy(&self.source),
            expected_type: opt_copy(&self.expected_type),
            kind: self.kind,
            severity: self.severity,
            message: self.message.clone(),
        }
    }

    /// Whether two issues have the same content.
    pub fn same_as(&self, other: &Self) -> (r: bool)
        ensures
            r == (self@ == other@),
    {
        opt_same(&self.field, &other.field) && opt_same(&self.variable, &other.variable)
            && opt_same(&self.source, &other.source) && opt_same(
            &self.expected_type,
            &other.expected_type,
        ) && self.kind == other.kind && self.severity == other.severity && self.message
            == other.message
    }
}

/// The strings of `parts` joined by `sep`.
pub fn join_strings(parts: &Vec<String>, sep: &str) -> (s: String)
    ensures
        s@ == join(strings_view(parts@), sep@),
{
    let ghost all = strings_view(parts@);
    let mut s = String::new();
    let mut i: usize = 0;
    while i < parts.len()
        invariant
            i <= parts@.len(),
            all == strings_view(parts@),
            s@ == join(all.take(i as int), sep@),
        decreases parts@.len() - i,
    {
        let ghost before = all.take(i as int);
        if i > 0 {
            push_str(&mut s, sep);
        }
        push_str(&mut s, parts[i].as_str());
        i = i + 1;
        proof {
            let now = all.take(i as int);
            assert(now.drop_last() =~= before);
            assert(now.last() == parts@[i - 1]@);
            if i == 1 {
                assert(before.len() == 0);
            }
        }
    }
    assert(all.take(i as int) =~= all);
    s
}

/// Whether `issues` holds an issue with the content of `issue`.
pub fn contains_issue(issues: &Vec<MaterializationIssue>, issue: &MaterializationIssue) -> (r: bool)
    ensures
        r == issues_view(issues@).contains(issue@),
{
    let mut i: usize = 0;
    while i < issues.len()
        invariant
            i <= issues@.len(),
            forall|m: int| 0 <= m < i ==> issues@[m]@ != issue@,
        decreases issues@.len() - i,
    {
        if issues[i].same_as(issue) {
            assert(issues_view(issues@)[i as int] == issue@);
            return true;
        }
        i = i + 1;
    }
    assert(!issues_view(issues@).contains(issue@)) by {
        if issues_view(issues@).contains(issue@) {
            let m = choose|m: int| 0 <= m < issues_view(issues@).len() && issues_view(issues@)[m] == issue@;
            assert(issues@[m]@ == issue@);
        }
    }
    false
}

/// Appends `issue` unless an issue with the same content is already there.
pub fn push_issue_unique(issues: &mut Vec<MaterializationIssue>, issue: MaterializationIssue)
    ensures
        issues_view(final(issues)@) == push_unique(issues_view(old(issues)@), issue@),
{
    if !contains_issue(issues, &issue) {
        let ghost before = issues_view(issues@);
        let ghost iv = issue@;
        issues.push(issue);
        assert(issues_view(issues@) =~= before.push(iv));
    }
}

/// The issues in order of first occurrence, each once.
pub fn deduplicate(issues: Vec<MaterializationIssue>) -> (r: Vec<MaterializationIssue>)
    ensures
        issues_view(r@) == dedup(issues_view(issues@)),
{
    let ghost all = issues_view(issues@);
    let mut unique: Vec<MaterializationIssue> = Vec::new();
    let mut i: usize = 0;
    assert(issues_view(unique@) =~= dedup(all.take(0)));
    while i < issues.len()
        invariant
            i <= issues@.len(),
            all == issues_view(issues@),
            issues_view(unique@) == dedup(all.take(i as int)),
        decreases issues@.len() - i,
    {
        let ghost before = all.take(i as int);
        push_issue_unique(&mut unique, issues[i].copy());
        i = i + 1;
        proof {
            let now = all.take(i as int);
            assert(now.drop_last() =~= before);
            assert(now.last() == issues@[i - 1]@);
        }
    }
    assert(all.take(i as int) =~= all);
    unique
}

/// All non-fatal and fatal findings from one materialization attempt.
#[derive(Debug, Clone, PartialEq, Eq)]
pub struct MaterializationReport {
    issues: Vec<MaterializationIssue>,
}

impl View for MaterializationReport {
    type V = Seq<IssueView>;

    closed spec fn view(&self) -> Seq<IssueView> {
        issues_view(self.issues@)
    }
}

impl Default for MaterializationReport {
    fn default() -> (r: Self)
        ensures
            r@ == Seq::<IssueView>::empty(),
    {
        let r = MaterializationReport { issues: Vec::new() };
        assert(r@ =~= Seq::<IssueView>::empty());
        r
    }
}

impl MaterializationReport {
    /// A report of the issues, each once, in order of first occurrence.
    pub fn new(issues: Vec<MaterializationIssue>) -> (r: Self)
        ensures
            r@ == dedup(issues_view(issues@)),
    {
        MaterializationReport { issues: deduplicate(issues) }
    }

    pub fn issues(&self) -> (s: &[MaterializationIssue])
        ensures
            issues_view(s@) == self@,
    {
        self.issues.as_slice()
    }

    /// A copy of the issues.
    pub fn to_vec(&self) -> (v: Vec<MaterializationIssue>)
        ensures
            issues_view(v@) == self@,
    {
        let mut v: Vec<MaterializationIssue> = Vec::new();
        let mut i: usize = 0;
        while i < self.issues.len()
            invariant
                i <= self.issues@.len(),
                v@.len() == i,
                forall|m: int| 0 <= m < i ==> (#[trigger] v@[m])@ == self.issues@[m]@,
            decreases self.issues@.len() - i,
        {
            v.push(self.issues[i].copy());
            i = i + 1;
        }
        assert(issues_view(v@) =~= issues_view(self.issues@));
        v
    }

    pub fn is_clean(&self) -> (b: bool)
        ensures
            b == (self@.len() == 0),
    {
        self.issues.len() == 0
    }

    pub fn has_errors(&self) -> (b: bool)
        ensures
            b == has_error(self@),
    {
        let mut i: usize = 0;
        while i < self.issues.len()
            invariant
                i <= self.issues@.len(),
                forall|m: int| 0 <= m < i ==> self.issues@[m].severity != IssueSeverity::Error,
            decreases self.issues@.len() - i,
        {
            if self.issues[i].severity == IssueSeverity::Error {
                assert(self@[i as int].severity == IssueSeverity::Error);
                return true;
            }
            i = i + 1;
        }
        assert(!has_error(self@)) by {
            if has_error(self@) {
                let m = choose|m: int| 0 <= m < self@.len() && (#[trigger] self@[m]).severity == IssueSeverity::Error;
                assert(self.issues@[m].severity == IssueSeverity::Error);
            }
        }
        false
    }
}

/// A successfully created snapshot and its diagnostics.
#[derive(Debug)]
pub struct Materialized<T> {
    pub value: T,
    pub report: MaterializationReport,
}

/// The detailed error returned when materialization cannot be accepted.
#[derive(Debug, Clone)]
pub struct MaterializationError {
    pub report: MaterializationReport,
}

impl MaterializationError {
    /// The human-readable description of this error.
    pub fn describe(&self) -> (s: String)
        ensures
            s@ == failure_text(self.report@.len()),
    {
        let mut s = "[!!] Configuration materialization failed with ".to_owned();
        let count = decimal_string(self.report.issues.len());
        push_str(&mut s, count.as_str());
        push_str(&mut s, " issue(s)");
        s
    }
}

/// Decides a materialization attempt from its value and collected issues.
///
/// The report lists every collected issue once; a missing value that no
/// error explains adds an internal error. The snapshot is rejected when the
/// report holds an error, or in Strict mode when it holds anything.
pub fn settle<T>(value: Option<T>, issues: Vec<MaterializationIssue>, mode: MaterializationMode) -> (r: Result<Materialized<T>, MaterializationError>)
    ensures
        r is Err <==> is_rejected(mode, final_report(value is Some, issues_view(issues@))),
        match r {
            Ok(m) => value == Some(m.value) && m.report@ == final_report(true, issues_view(issues@)),
            Err(e) => e.report@ == final_report(value is Some, issues_view(issues@)),
        },
{
    let ghost collected = issues_view(issues@);
    let mut issues = issues;
    let mut error_found = false;
    let mut i: usize = 0;
    while i < issues.len()
        invariant
            i <= issues@.len(),
            collected == issues_view(issues@),
            error_found == exists|m: int| 0 <= m < i && issues@[m].severity == IssueSeverity::Error,
        decreases issues@.len() - i,
    {
        if issues[i].severity == IssueSeverity::Error {
            error_found = true;
        }
        i = i + 1;
    }
    proof {
        if error_found {
            let m = choose|m: int| 0 <= m < i && issues@[m].severity == IssueSeverity::Error;
            assert(collected[m].severity == IssueSeverity::Error);
        }
        if has_error(collected) {
            let m = choose|m: int| 0 <= m < collected.len() && (#[trigger] collected[m]).severity == IssueSeverity::Error;
            assert(issues@[m].severity == IssueSeverity::Error);
        }
    }
    if value.is_none() && !error_found {
        let ghost before = issues_view(issues@);
        let internal = MaterializationIssue::internal(
            "[!!] The Materialize implementation returned no value without recording an error",
        );
        issues.push(internal);
        assert(issues_view(issues@) =~= before.push(internal_issue(no_value_message())));
    }
    let report = MaterializationReport::new(issues);
    let rejected = report.has_errors() || (mode == MaterializationMode::Strict && !report.is_clean());
    if rejected {
        return Err(MaterializationError { report });
    }
    match value {
        Some(v) => Ok(Materialized { value: v, report }),
        None => {
            proof {
                law_missing_value_is_rejected(mode, collected);
            }
            Err(MaterializationError { report })
        },
    }
}

/// Describes how an application config becomes a fully owned snapshot.
///
/// An implementation should evaluate every deferred field before deciding
/// whether it can construct `Output`, so that Strict mode reports every
/// problem at once.
pub trait Materialize {
    type Output;

    fn materialize(&self, context: &mut MaterializationContext<'_>) -> Option<Self::Output>;
}

/// `context` starts a materialization: it holds a new session over
/// `runtime`, with nothing cached and no issue recorded.
pub open spec fn starts_fresh(context: MaterializationContext<'_>, runtime: Arc<Runtime>) -> bool {
    &&& context.session_view() == (SessionView { cache: Seq::empty(), issues: Seq::empty() })
    &&& context.session_value().runtime_value() == runtime
}

/// Runs `config`'s own materialization in a new session over `runtime`, and
/// returns the value it gave with the issues its session recorded.
pub(crate) fn run_materialize<C: Materialize>(config: &C, runtime: Arc<Runtime>) -> (r: (Option<C::Output>, Vec<MaterializationIssue>))
    ensures
        exists|context: &mut MaterializationContext<'_>|
            starts_fresh(*context, runtime)
                && issues_view(r.1@) == (*final(context)).session_view().issues
                && #[trigger] call_ensures(C::materialize, (config, context), r.0),
{
    let mut session = ResolveSession::new(runtime);
    let mut context = MaterializationContext::new(&mut session);
    let step = C::materialize;
    let context_ref = &mut context;
    let ghost start = context_ref;
    let value = step(config, context_ref);
    let MaterializationContext { session: inner } = context;
    let issues = inner.recorded_issues();
    let ghost found = value;
    let r = (value, issues);
    assert(r.0 == found);
    assert(starts_fresh(*start, runtime));
    assert(issues_view(r.1@) == context.session_view().issues);
    assert(exists|c: &mut MaterializationContext<'_>|
        call_ensures(C::materialize, (config, c), r.0) && *c == *start && *final(c) == context);
    r
}

/// What a field helper did: a resolved value is returned as is; a failure
/// returns `None` and records the error as an issue of that field.
pub open spec fn field_outcome<T>(
    field: Seq<char>,
    mid: SessionView,
    resolved: Result<T, ConfigError>,
    r: Option<T>,
    new: SessionView,
) -> bool {
    match resolved {
        Ok(v) => r == Some(v) && new == mid,
        Err(e) => r is None && new == (SessionView {
            cache: mid.cache,
            issues: push_unique(mid.issues, issue_from_error(Some(field), e@)),
        }),
    }
}

/// Field-level helpers backed by the one session that a whole snapshot
/// shares: several fields that read the same variable see the same raw value.
pub struct MaterializationContext<'a> {
    session: &'a mut ResolveSession,
}

impl<'a> MaterializationContext<'a> {
    pub closed spec fn session_view(&self) -> SessionView {
        (*self.session)@
    }

    pub closed spec fn session_value(&self) -> ResolveSession {
        *self.session
    }

    pub(crate) fn new(session: &'a mut ResolveSession) -> (c: Self)
        ensures
            c.session_value() == *old(session),
    {
        MaterializationContext { session }
    }

    /// Resolves a lazy field; a failure becomes an error issue of `field`.
    pub fn lazy<T: FromStr + 'static>(&mut self, field: &str, value: &Lazy<T>) -> (r: Option<T>)
        ensures
            exists|mid: SessionView, resolved: Result<T, ConfigError>|
                lazy_resolved(value.key(), old(self).session_value().runtime_value() == value.runtime_value(),
                    old(self).session_value().slots(), old(self).session_view(), mid, resolved)
                && #[trigger] field_outcome(field@, mid, resolved, r, final(self).session_view()),
    {
        let resolved = value.resolve_in(self.session);
        let ghost mid = self.session_view();
        match resolved {
            Ok(v) => {
                let r = Some(v);
                assert(field_outcome(field@, mid, Ok::<T, ConfigError>(v), r, self.session_view()));
                r
            },
            Err(error) => {
                let ghost ev = error@;
                self.session.push_issue(MaterializationIssue::from_error(Some(field), &error));
                assert(field_outcome(field@, mid, Err::<T, ConfigError>(error), None::<T>, self.session_view()));
                None
            },
        }
    }

    /// Resolves an optional lazy field. The outer `Option` says whether it
    /// was resolved; the inner one whether the variable is present.
    pub fn lazy_optional<T: FromStr + 'static>(&mut self, field: &str, value: &LazyOptional<T>) -> (r: Option<Option<T>>)
        ensures
            exists|mid: SessionView, resolved: Result<Option<T>, ConfigError>|
                lazy_optional_resolved(value.key(), old(self).session_value().runtime_value() == value.runtime_value(),
                    old(self).session_value().slots(), old(self).session_view(), mid, resolved)
                && #[trigger] field_outcome(field@, mid, resolved, r, final(self).session_view()),
    {
        let resolved = value.resolve_in(self.session);
        let ghost mid = self.session_view();
        match resolved {
            Ok(v) => {
                let r = Some(v);
                assert(field_outcome(field@, mid, Ok::<Option<T>, ConfigError>(v), r, self.session_view()));
                r
            },
            Err(error) => {
                self.session.push_issue(MaterializationIssue::from_error(Some(field), &error));
                assert(field_outcome(field@, mid, Err::<Option<T>, ConfigError>(error), None::<Option<T>>, self.session_view()));
                None
            },
        }
    }

    /// Runs a computed field; a failure becomes an error issue of `field`.
    pub fn computed<T: 'static>(&mut self, field: &str, value: &Computed<T>) -> (r: Option<T>)
        ensures
            exists|session: &mut ResolveSession, resolved: Result<T, ConfigError>|
                *session == old(self).session_value()
                && computed_resolved(value, old(self).session_value().runtime_value() == value.runtime_value(),
                    session, (*session)@, (*final(session))@, resolved)
                && #[trigger] field_outcome(field@, (*final(session))@, resolved, r, final(self).session_view()),
    {
        let resolved = value.resolve_in(self.session);
        let ghost mid = self.session_view();
        match resolved {
            Ok(v) => {
                let r = Some(v);
                assert(field_outcome(field@, mid, Ok::<T, ConfigError>(v), r, self.session_view()));
                r
            },
            Err(error) => {
                self.session.push_issue(MaterializationIssue::from_error(Some(field), &error));
                assert(field_outcome(field@, mid, Err::<T, ConfigError>(error), None::<T>, self.session_view()));
                None
            },
        }
    }
}

/// The event that reports `issue` at `level`: it names the issue's field,
/// variable and source and carries its message, never a value.
pub open spec fn issue_event(level: Level, issue: IssueView) -> EventView {
    EventView {
        level,
        kind: EventKind::Issue,
        field: issue.field,
        key: issue.variable,
        source: issue.source,
        message: issue.message,
    }
}

/// The events that log a report in `mode`: one per issue the mode shows, in
/// report order, at the mode's level for it.
pub open spec fn report_events(mode: MaterializationMode, issues: Seq<IssueView>) -> Seq<EventView>
    decreases issues.len(),
{
    if issues.len() == 0 {
        seq![]
    } else {
        let prev = report_events(mode, issues.drop_last());
        match log_level_for(mode, issues.last()) {
            Some(level) => prev.push(issue_event(level, issues.last())),
            None => prev,
        }
    }
}

fn opt_str(o: &Option<String>) -> (r: Option<&str>)
    ensures
        crate::error::opt_str_view(r) == opt_string_view(*o),
{
    match o {
        Some(s) => Some(s.as_str()),
        None => None,
    }
}

/// The events that log `issues` in `mode`.
pub fn issue_events<'a>(mode: MaterializationMode, issues: &'a [MaterializationIssue]) -> (v: Vec<Event<'a>>)
    ensures
        events_view(v@) == report_events(mode, issues_view(issues@)),
{
    let ghost all = issues_view(issues@);
    let mut v: Vec<Event<'a>> = Vec::new();
    let mut i: usize = 0;
    assert(all.take(0) =~= Seq::<IssueView>::empty());
    assert(events_view(v@) =~= Seq::<EventView>::empty());
    while i < issues.len()
        invariant
            i <= issues@.len(),
            all == issues_view(issues@),
            events_view(v@) == report_events(mode, all.take(i as int)),
        decreases issues@.len() - i,
    {
        let issue = &issues[i];
        let ghost before = events_view(v@);
        assert(all.take(i + 1).drop_last() =~= all.take(i as int));
        assert(all.take(i + 1).last() == issue@);
        match issue_log_level(mode, issue) {
            Some(level) => {
                let event = Event {
                    level,
                    kind: EventKind::Issue,
                    field: opt_str(&issue.field),
                    key: opt_str(&issue.variable),
                    source: opt_str(&issue.source),
                    message: issue.message.as_str(),
                };
                v.push(event);
                assert(event_view(event) == issue_event(level, issue@));
                assert(events_view(v@) =~= before.push(issue_event(level, issue@)));
            },
            None => {},
        }
        i = i + 1;
    }
    assert(all.take(i as int) =~= all);
    v
}

/// The level at which `issue` is reported in `mode`, or `None` for silence.
pub fn issue_log_level(mode: MaterializationMode, issue: &MaterializationIssue) -> (r: Option<Level>)
    ensures
        r == log_level_for(mode, issue@),
{
    let shown = match mode {
        MaterializationMode::Normal => issue.severity == IssueSeverity::Error,
        MaterializationMode::Notify => issue.severity == IssueSeverity::Error || issue.kind
            == IssueKind::MissingOptional,
        _ => true,
    };
    if !shown {
        None
    } else if issue.severity == IssueSeverity::Error {
        Some(Level::Error)
    } else if mode == MaterializationMode::Notify {
        Some(Level::Info)
    } else if issue.severity == IssueSeverity::Warning {
        Some(Level::Warn)
    } else {
        Some(Level::Info)
    }
}

} // verus!
