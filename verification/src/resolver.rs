//! Typed lookup and per-session caching over an ordered list of sources.

use std::str::FromStr;
use std::sync::Arc;

use vstd::rwlock::{RwLock, RwLockPredicate};
use vstd::prelude::*;

use crate::error::{
    invalid_key_error, invalid_value_message, missing_error, source_error, ConfigError,
    ConfigErrorKind, ConfigErrorView,
};
use crate::materialize::{
    default_used_issue, duplicate_issue, issue_from_error, issues_view, missing_optional_issue,
    push_issue_unique, push_unique, unknown_issue, IssueKind, IssueView, MaterializationIssue,
};
use crate::reporter::{Event, EventKind, Level, Reporter};
use crate::source::dotenv::{is_valid_key, valid_key};
use crate::source::process::no_duplicates;
use crate::source::{
    answer_view, listing_view, Answer, DotenvSource, Listing, MapSource, ProcessEnvSource, Source,
};
use crate::table::{contains_string, lookup, strings_view};
use crate::text::{str_eq, upper_seq};

verus! {

/// One source of a runtime, in precedence order.
pub enum SourceSlot {
    /// Values set on the loader, above every other source.
    Explicit(MapSource),
    /// A custom source registered by the application.
    Custom(Box<dyn Source>),
    /// The process environment snapshot.
    Process(ProcessEnvSource),
    /// One dotenv file.
    Dotenv(DotenvSource),
}

/// The name a source reports: a built-in source's, or a custom source's
/// when it answers by spec; `None` for another custom source.
pub open spec fn slot_name(slot: SourceSlot) -> Option<Seq<char>> {
    match slot {
        SourceSlot::Explicit(m) => Some(m@.name),
        SourceSlot::Process(_) => Some("process"@),
        SourceSlot::Dotenv(d) => Some(d@.name),
        SourceSlot::Custom(c) => if c.answers_by_spec() {
            Some(c.spec_name())
        } else {
            None
        },
    }
}

/// What a source answers for `key`: a built-in source's answer, or a custom
/// source's when it answers by spec; `None` for another custom source.
pub open spec fn slot_answer(slot: SourceSlot, key: Seq<char>) -> Option<Answer> {
    match slot {
        SourceSlot::Explicit(m) => Some(Ok(lookup(m@.values, upper_seq(key)))),
        SourceSlot::Process(p) => Some(
            if p@.non_unicode.contains(key) {
                Err(crate::source::process::non_utf8_message(key))
            } else {
                Ok(lookup(p@.values, key))
            },
        ),
        SourceSlot::Dotenv(d) => Some(Ok(lookup(d@.values, key))),
        SourceSlot::Custom(c) => if c.answers_by_spec() {
            Some(c.spec_get(key))
        } else {
            None
        },
    }
}

/// What a built-in source lists as its keys; `None` for a custom source.
pub open spec fn slot_keys(slot: SourceSlot) -> Option<Listing> {
    match slot {
        SourceSlot::Explicit(m) => Some(Ok(Some(crate::table::keys_of(m@.values)))),
        SourceSlot::Process(p) => Some(Ok(Some(crate::table::keys_of(p@.values) + p@.non_unicode))),
        SourceSlot::Dotenv(d) => Some(Ok(Some(crate::table::keys_of(d@.values)))),
        SourceSlot::Custom(_) => None,
    }
}

/// `r` is a possible answer of `source` to `keys`.
pub closed spec fn source_lists<S: Source + ?Sized>(source: &S, r: Result<Option<Vec<String>>, crate::error::SourceError>) -> bool {
    call_ensures(S::keys, (source,), r)
}

/// `n` is a possible answer of `source` to `name`.
pub closed spec fn source_named<S: Source + ?Sized>(source: &S, n: &str) -> bool {
    call_ensures(S::name, (source,), n)
}

/// `r` is a possible answer of `source` to `get` for `key`.
pub closed spec fn source_answers<S: Source + ?Sized>(source: &S, key: &str, r: Result<Option<String>, crate::error::SourceError>) -> bool {
    call_ensures(S::get, (source, key), r)
}

/// Asks `source` for the value of `key`.
fn ask_source<S: Source + ?Sized>(source: &S, key: &str) -> (r: Result<Option<String>, crate::error::SourceError>)
    ensures
        source_answers(source, key, r),
{
    let ask = S::get;
    ask(source, key)
}

/// Asks `source` for its keys.
fn list_keys<S: Source + ?Sized>(source: &S) -> (r: Result<Option<Vec<String>>, crate::error::SourceError>)
    ensures
        source_lists(source, r),
{
    let list = S::keys;
    list(source)
}

/// Asks `source` for its name.
fn source_name<S: Source + ?Sized>(source: &S) -> (n: &str)
    ensures
        source_named(source, n),
{
    let ask = S::name;
    ask(source)
}

/// `name` is a name that `slot` gives: a built-in source's name, or one of
/// a custom source's answers to `name`.
pub open spec fn slot_named(slot: SourceSlot, name: Seq<char>) -> bool {
    &&& slot_name(slot) matches Some(x) ==> name == x
    &&& slot matches SourceSlot::Custom(c) ==> exists|n: &str| #[trigger] source_named(&*c, n) && n@ == name
}

/// `answer` is an answer that `slot` gives for `key`: a built-in source's
/// answer, or one of a custom source's answers to `get`.
pub open spec fn slot_answers(slot: SourceSlot, key: Seq<char>, answer: Answer) -> bool {
    &&& slot_answer(slot, key) matches Some(a) ==> answer == a
    &&& slot matches SourceSlot::Custom(c) ==> exists|k: &str, r: Result<Option<String>, crate::error::SourceError>|
        #[trigger] source_answers(&*c, k, r) && k@ == key && answer_view(r) == answer
}

/// `listing` is a listing that `slot` gives: a built-in source's keys, or
/// one of a custom source's answers to `keys`.
pub open spec fn slot_lists(slot: SourceSlot, listing: Listing) -> bool {
    &&& slot_keys(slot) matches Some(k) ==> listing == k
    &&& slot matches SourceSlot::Custom(c) ==> exists|r: Result<Option<Vec<String>>, crate::error::SourceError>|
        #[trigger] source_lists(&*c, r) && listing_view(r) == listing
}

impl SourceSlot {
    pub fn name(&self) -> (n: &str)
        ensures
            slot_name(*self) matches Some(x) ==> n@ == x,
            *self matches SourceSlot::Custom(c) ==> source_named(&*c, n),
    {
        match self {
            SourceSlot::Explicit(m) => m.name(),
            SourceSlot::Custom(c) => source_name(&**c),
            SourceSlot::Process(p) => p.name(),
            SourceSlot::Dotenv(d) => d.name(),
        }
    }

    pub fn get(&self, key: &str) -> (r: Result<Option<String>, crate::error::SourceError>)
        ensures
            slot_answer(*self, key@) matches Some(a) ==> answer_view(r) == a,
            *self matches SourceSlot::Custom(c) ==> source_answers(&*c, key, r),
    {
        match self {
            SourceSlot::Explicit(m) => m.get(key),
            SourceSlot::Custom(c) => ask_source(&**c, key),
            SourceSlot::Process(p) => p.get(key),
            SourceSlot::Dotenv(d) => d.get(key),
        }
    }

    pub fn keys(&self) -> (r: Result<Option<Vec<String>>, crate::error::SourceError>)
        ensures
            slot_keys(*self) matches Some(l) ==> listing_view(r) == l,
            *self matches SourceSlot::Custom(c) ==> source_lists(&*c, r),
    {
        match self {
            SourceSlot::Explicit(m) => m.keys(),
            SourceSlot::Custom(c) => list_keys(&**c),
            SourceSlot::Process(p) => p.keys(),
            SourceSlot::Dotenv(d) => d.keys(),
        }
    }
}

// ---------------------------------------------------------------------
// The audit of unknown variables.
// ---------------------------------------------------------------------

/// Whether the audit considers `key` under the prefix.
pub open spec fn in_scope(prefix: Option<Seq<char>>, key: Seq<char>) -> bool {
    match prefix {
        Some(p) => p.is_prefix_of(key),
        None => true,
    }
}

/// Without a prefix, the process environment is not audited: it holds
/// unrelated variables such as `PATH` and `HOME`.
pub open spec fn audited(prefix: Option<Seq<char>>, name: Seq<char>) -> bool {
    !(prefix is None && name == "process"@)
}

/// An unknown-variable issue for every listed key in scope that the
/// configuration did not declare, in listing order.
pub open spec fn unknown_keys(
    prefix: Option<Seq<char>>,
    declared: Seq<Seq<char>>,
    name: Seq<char>,
    keys: Seq<Seq<char>>,
) -> Seq<IssueView>
    decreases keys.len(),
{
    if keys.len() == 0 {
        seq![]
    } else {
        let prev = unknown_keys(prefix, declared, name, keys.drop_last());
        let k = keys.last();
        if in_scope(prefix, k) && !declared.contains(k) {
            prev.push(unknown_issue(k, name))
        } else {
            prev
        }
    }
}

/// The issues one source contributes, from its name and its listing
/// (`None` when the source was not asked).
pub open spec fn audit_of_source(
    prefix: Option<Seq<char>>,
    declared: Seq<Seq<char>>,
    name: Seq<char>,
    listing: Option<Listing>,
) -> Seq<IssueView> {
    if !audited(prefix, name) {
        seq![]
    } else {
        match listing {
            Some(Ok(Some(keys))) => unknown_keys(prefix, declared, name, keys),
            Some(Err(msg)) => seq![issue_from_error(None, source_error(name, None, msg))],
            _ => seq![],
        }
    }
}

/// The issues of all sources, in source order.
pub open spec fn audit(
    prefix: Option<Seq<char>>,
    declared: Seq<Seq<char>>,
    reports: Seq<(Seq<char>, Option<Listing>)>,
) -> Seq<IssueView>
    decreases reports.len(),
{
    if reports.len() == 0 {
        seq![]
    } else {
        audit(prefix, declared, reports.drop_last()) + audit_of_source(
            prefix,
            declared,
            reports.last().0,
            reports.last().1,
        )
    }
}

/// An unknown-variable issue names a key under the prefix that the
/// configuration did not declare, found in a source that is audited.
pub open spec fn flags_undeclared_in_scope(
    prefix: Option<Seq<char>>,
    declared: Seq<Seq<char>>,
    issue: IssueView,
) -> bool {
    issue.kind == IssueKind::UnknownVariable ==> {
        &&& issue.variable matches Some(k) && in_scope(prefix, k) && !declared.contains(k)
        &&& issue.source matches Some(s) && audited(prefix, s)
    }
}

proof fn lemma_unknown_keys_in_scope(
    prefix: Option<Seq<char>>,
    declared: Seq<Seq<char>>,
    name: Seq<char>,
    keys: Seq<Seq<char>>,
)
    requires
        audited(prefix, name),
    ensures
        forall|i: int| 0 <= i < unknown_keys(prefix, declared, name, keys).len() ==> flags_undeclared_in_scope(
            prefix,
            declared,
            #[trigger] unknown_keys(prefix, declared, name, keys)[i],
        ),
    decreases keys.len(),
{
    if keys.len() > 0 {
        lemma_unknown_keys_in_scope(prefix, declared, name, keys.drop_last());
        let prev = unknown_keys(prefix, declared, name, keys.drop_last());
        let all = unknown_keys(prefix, declared, name, keys);
        let k = keys.last();
        assert forall|i: int| 0 <= i < all.len() implies flags_undeclared_in_scope(prefix, declared, #[trigger] all[i]) by {
            if i < prev.len() {
                assert(all[i] == prev[i]);
            } else {
                assert(all[i] == unknown_issue(k, name));
            }
        }
    }
}

/// The audit of unknown variables is scoped: every unknown-variable issue it
/// reports names an undeclared key under the prefix, in an audited source
/// (without a prefix, the process environment is never audited).
pub proof fn law_audit_is_scoped(
    prefix: Option<Seq<char>>,
    declared: Seq<Seq<char>>,
    reports: Seq<(Seq<char>, Option<Listing>)>,
)
    ensures
        forall|i: int| 0 <= i < audit(prefix, declared, reports).len() ==> flags_undeclared_in_scope(
            prefix,
            declared,
            #[trigger] audit(prefix, declared, reports)[i],
        ),
    decreases reports.len(),
{
    if reports.len() > 0 {
        law_audit_is_scoped(prefix, declared, reports.drop_last());
        let name = reports.last().0;
        let prev = audit(prefix, declared, reports.drop_last());
        let here = audit_of_source(prefix, declared, name, reports.last().1);
        if audited(prefix, name) {
            match reports.last().1 {
                Some(Ok(Some(keys))) => lemma_unknown_keys_in_scope(prefix, declared, name, keys),
                _ => {},
            }
        }
        assert forall|i: int| 0 <= i < here.len() implies flags_undeclared_in_scope(prefix, declared, #[trigger] here[i]) by {}
        assert forall|i: int| 0 <= i < (prev + here).len() implies flags_undeclared_in_scope(
            prefix,
            declared,
            #[trigger] (prev + here)[i],
        ) by {
            if i >= prev.len() {
                assert((prev + here)[i] == here[i - prev.len()]);
            }
        }
    }
}

proof fn lemma_unknown_keys_flag(
    prefix: Option<Seq<char>>,
    declared: Seq<Seq<char>>,
    name: Seq<char>,
    keys: Seq<Seq<char>>,
    key: Seq<char>,
)
    requires
        keys.contains(key),
        in_scope(prefix, key),
        !declared.contains(key),
    ensures
        unknown_keys(prefix, declared, name, keys).contains(unknown_issue(key, name)),
    decreases keys.len(),
{
    let prev = unknown_keys(prefix, declared, name, keys.drop_last());
    let all = unknown_keys(prefix, declared, name, keys);
    if keys.last() == key {
        assert(all == prev.push(unknown_issue(key, name)));
        assert(all[prev.len() as int] == unknown_issue(key, name));
    } else {
        let j = choose|j: int| 0 <= j < keys.len() && keys[j] == key;
        assert(keys.drop_last()[j] == key);
        lemma_unknown_keys_flag(prefix, declared, name, keys.drop_last(), key);
        let m = choose|m: int| 0 <= m < prev.len() && prev[m] == unknown_issue(key, name);
        assert(all[m] == prev[m]);
    }
}

/// The audit is complete: every key that an audited source lists, under the
/// prefix and not declared, is reported as unknown in that source.
pub proof fn law_audit_flags_every_undeclared_key(
    prefix: Option<Seq<char>>,
    declared: Seq<Seq<char>>,
    reports: Seq<(Seq<char>, Option<Listing>)>,
    i: int,
    keys: Seq<Seq<char>>,
    key: Seq<char>,
)
    requires
        0 <= i < reports.len(),
        audited(prefix, reports[i].0),
        reports[i].1 == Some(Ok::<Option<Seq<Seq<char>>>, Seq<char>>(Some(keys))),
        keys.contains(key),
        in_scope(prefix, key),
        !declared.contains(key),
    ensures
        audit(prefix, declared, reports).contains(unknown_issue(key, reports[i].0)),
    decreases reports.len(),
{
    let prev = audit(prefix, declared, reports.drop_last());
    let here = audit_of_source(prefix, declared, reports.last().0, reports.last().1);
    let x = unknown_issue(key, reports[i].0);
    assert(audit(prefix, declared, reports) == prev + here);
    if i == reports.len() - 1 {
        lemma_unknown_keys_flag(prefix, declared, reports[i].0, keys, key);
        let m = choose|m: int| 0 <= m < here.len() && here[m] == x;
        assert((prev + here)[prev.len() + m] == x);
    } else {
        assert(reports.drop_last()[i] == reports[i]);
        law_audit_flags_every_undeclared_key(prefix, declared, reports.drop_last(), i, keys, key);
        let m = choose|m: int| 0 <= m < prev.len() && prev[m] == x;
        assert((prev + here)[m] == x);
    }
}

/// Under a prefix every source is audited, custom sources as built-in ones:
/// its listing is what the source gave when asked for its keys.
pub proof fn law_every_source_is_audited_under_a_prefix(
    slots: Seq<SourceSlot>,
    prefix: Option<Seq<char>>,
    reports: Seq<(Seq<char>, Option<Listing>)>,
    i: int,
)
    requires
        reports_fit(slots, prefix, reports),
        prefix is Some,
        0 <= i < slots.len(),
    ensures
        reports[i].1 matches Some(l) && slot_lists(slots[i], l),
        slots[i] matches SourceSlot::Custom(c) ==> exists|r: Result<Option<Vec<String>>, crate::error::SourceError>|
            #[trigger] source_lists(&*c, r) && reports[i].1 == Some(listing_view(r)),
{
    assert(audited(prefix, reports[i].0));
}

/// The names and listings fit the sources: built-in sources answer as
/// their specs say, and only audited sources are asked.
pub open spec fn reports_fit(
    slots: Seq<SourceSlot>,
    prefix: Option<Seq<char>>,
    reports: Seq<(Seq<char>, Option<Listing>)>,
) -> bool {
    &&& reports.len() == slots.len()
    &&& forall|i: int| 0 <= i < slots.len() ==> slot_named(#[trigger] slots[i], reports[i].0)
    &&& forall|i: int| 0 <= i < slots.len() ==> (audited(prefix, #[trigger] reports[i].0) <==> reports[i].1 is Some)
    &&& forall|i: int| 0 <= i < slots.len() ==> (#[trigger] reports[i].1 matches Some(l) ==> slot_lists(slots[i], l))
}

/// Whether `key` starts with `prefix`.
pub fn starts_with(key: &str, prefix: &str) -> (b: bool)
    ensures
        b == prefix@.is_prefix_of(key@),
{
    let n = prefix.unicode_len();
    let m = key.unicode_len();
    if n > m {
        return false;
    }
    let mut i: usize = 0;
    while i < n
        invariant
            n == prefix@.len(),
            m == key@.len(),
            n <= m,
            i <= n,
            forall|j: int| 0 <= j < i ==> prefix@[j] == key@[j],
        decreases n - i,
    {
        if prefix.get_char(i) != key.get_char(i) {
            return false;
        }
        i = i + 1;
    }
    true
}

fn key_in_scope(prefix: Option<&str>, key: &str) -> (b: bool)
    ensures
        b == in_scope(crate::error::opt_str_view(prefix), key@),
{
    match prefix {
        Some(p) => starts_with(key, p),
        None => true,
    }
}

/// Adds an unknown-variable issue for every key in scope that was not declared.
pub fn push_unknown_keys(
    prefix: Option<&str>,
    declared: &Vec<String>,
    name: &str,
    keys: &Vec<String>,
    issues: &mut Vec<MaterializationIssue>,
)
    ensures
        issues_view(final(issues)@) == issues_view(old(issues)@) + unknown_keys(
            crate::error::opt_str_view(prefix),
            strings_view(declared@),
            name@,
            strings_view(keys@),
        ),
{
    let ghost p = crate::error::opt_str_view(prefix);
    let ghost d = strings_view(declared@);
    let ghost ks = strings_view(keys@);
    let ghost start = issues_view(issues@);
    let mut i: usize = 0;
    assert(start + unknown_keys(p, d, name@, ks.take(0)) =~= start);
    while i < keys.len()
        invariant
            i <= keys@.len(),
            ks == strings_view(keys@),
            p == crate::error::opt_str_view(prefix),
            d == strings_view(declared@),
            issues_view(issues@) == start + unknown_keys(p, d, name@, ks.take(i as int)),
        decreases keys@.len() - i,
    {
        let key = keys[i].as_str();
        let ghost before = issues_view(issues@);
        proof {
            let now = ks.take(i + 1);
            assert(now.drop_last() =~= ks.take(i as int));
            assert(now.last() == key@);
        }
        if key_in_scope(prefix, key) && !contains_string(declared, key) {
            let issue = MaterializationIssue::unknown(key, name);
            issues.push(issue);
            proof {
                let prev = unknown_keys(p, d, name@, ks.take(i as int));
                assert(issues_view(issues@) =~= before.push(unknown_issue(key@, name@)));
                assert(start + prev.push(unknown_issue(key@, name@)) =~= (start + prev).push(unknown_issue(key@, name@)));
            }
        }
        i = i + 1;
    }
    assert(ks.take(i as int) =~= ks);
}

/// What the registry of declared keys always holds: valid names, each once.
pub struct DeclaredKeys;

impl RwLockPredicate<Vec<String>> for DeclaredKeys {
    open spec fn inv(self, v: Vec<String>) -> bool {
        &&& no_duplicates(strings_view(v@))
        &&& forall|i: int| 0 <= i < v@.len() ==> valid_key(#[trigger] v@[i]@)
    }
}

/// Shared runtime state retained by `Loaded`, `Lazy` and `Computed`: the
/// sources in precedence order, the reporter, the audit prefix, and the
/// registry of every key the configuration declared.
pub struct Runtime {
    sources: Vec<SourceSlot>,
    reporter: Box<dyn Reporter>,
    prefix: Option<String>,
    declared_keys: RwLock<Vec<String>, DeclaredKeys>,
}

impl Runtime {
    pub closed spec fn slots(&self) -> Seq<SourceSlot> {
        self.sources@
    }

    pub closed spec fn audit_prefix(&self) -> Option<Seq<char>> {
        crate::error::opt_string_view(self.prefix)
    }

    pub fn new(sources: Vec<SourceSlot>, reporter: Box<dyn Reporter>, prefix: Option<String>) -> (r: Self)
        ensures
            r.slots() == sources@,
            r.audit_prefix() == crate::error::opt_string_view(prefix),
    {
        Runtime {
            sources,
            reporter,
            prefix,
            declared_keys: RwLock::new(Vec::new(), Ghost(DeclaredKeys)),
        }
    }

    pub fn emit(&self, event: Event<'_>) {
        self.reporter.report(&event);
    }

    pub fn emit_error(&self, error: &ConfigError) {
        self.emit(
            Event {
                level: Level::Error,
                kind: EventKind::Issue,
                field: None,
                key: error.key(),
                source: error.source_name(),
                message: error.safe_log_message(),
            },
        );
    }

    /// Records that the configuration declared `key`.
    pub fn register_key(&self, key: &str)
        requires
            valid_key(key@),
    {
        let (mut keys, handle) = self.declared_keys.acquire_write();
        if !contains_string(&keys, key) {
            let ghost before = keys@;
            keys.push(key.to_owned());
            assert(strings_view(keys@) =~= strings_view(before).push(key@));
        }
        handle.release_write(keys);
    }

    /// A copy of the registry of declared keys: valid names, each once.
    pub fn declared(&self) -> (v: Vec<String>)
        ensures
            no_duplicates(strings_view(v@)),
            forall|i: int| 0 <= i < v@.len() ==> valid_key(#[trigger] v@[i]@),
    {
        let handle = self.declared_keys.acquire_read();
        let keys = handle.borrow();
        assert(DeclaredKeys.inv(*keys));
        let copy = crate::table::copy_strings(keys);
        assert(copy@.len() == strings_view(copy@).len() && keys@.len() == strings_view(keys@).len());
        assert forall|i: int| 0 <= i < copy@.len() implies valid_key(#[trigger] copy@[i]@) by {
            assert(strings_view(copy@)[i] == strings_view(keys@)[i]);
            assert(valid_key(keys@[i]@));
        }
        handle.release_read();
        copy
    }

    /// Issues for variables that a source lists but the configuration never
    /// declared, scoped by the prefix. A source that fails to list its keys
    /// contributes a source-failure issue.
    pub fn unknown_variable_issues(&self) -> (r: Vec<MaterializationIssue>)
        ensures
            exists|declared: Seq<Seq<char>>, reports: Seq<(Seq<char>, Option<Listing>)>|
                reports_fit(self.slots(), self.audit_prefix(), reports) && issues_view(r@) == #[trigger] audit(
                    self.audit_prefix(),
                    declared,
                    reports,
                ),
    {
        let declared = self.declared();
        self.audit_sources(&declared)
    }

    /// The audit of every source against the keys in `declared`: unknown
    /// keys under the prefix in each audited source, in source order, and a
    /// source-failure issue for a source that fails to list its keys.
    pub fn audit_sources(&self, declared: &Vec<String>) -> (r: Vec<MaterializationIssue>)
        ensures
            exists|reports: Seq<(Seq<char>, Option<Listing>)>|
                reports_fit(self.slots(), self.audit_prefix(), reports) && issues_view(r@) == #[trigger] audit(
                    self.audit_prefix(),
                    strings_view(declared@),
                    reports,
                ),
    {
        let ghost d = strings_view(declared@);
        let prefix = self.prefix();
        let ghost p = self.audit_prefix();
        let mut issues: Vec<MaterializationIssue> = Vec::new();
        let ghost mut reports: Seq<(Seq<char>, Option<Listing>)> = seq![];
        let mut i: usize = 0;
        assert(issues_view(issues@) =~= audit(p, d, reports));
        while i < self.sources.len()
            invariant
                i <= self.sources@.len(),
                p == self.audit_prefix(),
                p == crate::error::opt_str_view(prefix),
                d == strings_view(declared@),
                reports.len() == i,
                forall|j: int| 0 <= j < i ==> slot_named(#[trigger] self.sources@[j], reports[j].0),
                forall|j: int| 0 <= j < i ==> (audited(p, #[trigger] reports[j].0) <==> reports[j].1 is Some),
                forall|j: int| 0 <= j < i ==> (#[trigger] reports[j].1 matches Some(l) ==> slot_lists(self.sources@[j], l)),
                issues_view(issues@) == audit(p, d, reports),
            decreases self.sources@.len() - i,
        {
            let source = &self.sources[i];
            let name = source.name();
            let ghost before = issues_view(issues@);
            let ghost old_reports = reports;
            if prefix.is_none() && str_eq(name, "process") {
                proof {
                    reports = reports.push((name@, None));
                    assert(reports.drop_last() =~= old_reports);
                    assert(issues_view(issues@) =~= audit(p, d, reports));
                }
            } else {
                let listing = source.keys();
                let ghost lv = listing_view(listing);
                match listing {
                    Ok(Some(keys)) => {
                        push_unknown_keys(prefix, declared, name, &keys, &mut issues);
                    },
                    Ok(None) => {
                        assert(issues_view(issues@) =~= before + Seq::<IssueView>::empty());
                    },
                    Err(error) => {
                        let e = ConfigError::source(name, None, error.message());
                        let issue = MaterializationIssue::from_error(None, &e);
                        issues.push(issue);
                        assert(issues_view(issues@) =~= before + seq![issue_from_error(None, source_error(name@, None, error@))]);
                    },
                }
                proof {
                    reports = reports.push((name@, Some(lv)));
                    assert(reports.drop_last() =~= old_reports);
                }
            }
            i = i + 1;
        }
        proof {
            assert(reports_fit(self.slots(), p, reports));
        }
        issues
    }

    pub fn source_count(&self) -> (n: usize)
        ensures
            n == self.slots().len(),
    {
        self.sources.len()
    }

    pub fn source_at(&self, i: usize) -> (s: &SourceSlot)
        requires
            i < self.slots().len(),
        ensures
            *s == self.slots()[i as int],
    {
        &self.sources[i]
    }

    pub fn prefix(&self) -> (p: Option<&str>)
        ensures
            crate::error::opt_str_view(p) == self.audit_prefix(),
    {
        match &self.prefix {
            Some(p) => Some(p.as_str()),
            None => None,
        }
    }
}

// ---------------------------------------------------------------------
// Precedence: what one lookup across the sources yields.
// ---------------------------------------------------------------------

/// A raw value and the name of the source it came from.
#[derive(Debug, Clone)]
pub struct ResolvedRaw {
    pub value: String,
    pub source: String,
}

/// A raw value and its source, as characters.
pub type RawView = (Seq<char>, Seq<char>);

/// The outcome of looking a key up across all sources.
pub type RawResult = Result<Option<RawView>, ConfigErrorView>;

pub open spec fn raw_result_view(r: Result<Option<ResolvedRaw>, ConfigError>) -> RawResult {
    match r {
        Ok(Some(raw)) => Ok(Some((raw.value@, raw.source@))),
        Ok(None) => Ok(None),
        Err(e) => Err(e@),
    }
}

/// One source's reply during a lookup.
pub struct SourceReply {
    pub source: Seq<char>,
    pub answer: Answer,
}

/// The values found so far, in source order, or the first failing source and
/// its message.
pub open spec fn scan_replies(replies: Seq<SourceReply>) -> Result<Seq<RawView>, (Seq<char>, Seq<char>)>
    decreases replies.len(),
{
    if replies.len() == 0 {
        Ok(seq![])
    } else {
        let last = replies.last();
        match scan_replies(replies.drop_last()) {
            Err(e) => Err(e),
            Ok(found) => match last.answer {
                Err(m) => Err((last.source, m)),
                Ok(None) => Ok(found),
                Ok(Some(v)) => Ok(found.push((v, last.source))),
            },
        }
    }
}

/// The first source that has the key wins; a failing source stops the lookup.
pub open spec fn lookup_result(key: Seq<char>, replies: Seq<SourceReply>) -> RawResult {
    match scan_replies(replies) {
        Err((source, message)) => Err(source_error(source, Some(key), message)),
        Ok(found) => Ok(
            if found.len() > 0 {
                Some(found[0])
            } else {
                None
            },
        ),
    }
}

/// When more than one source has the key, a duplicate-variable issue names
/// all of them.
pub open spec fn lookup_issue(key: Seq<char>, replies: Seq<SourceReply>) -> Option<IssueView> {
    match scan_replies(replies) {
        Ok(found) => if found.len() > 1 {
            Some(duplicate_issue(key, found.map_values(|p: RawView| p.1)))
        } else {
            None
        },
        Err(_) => None,
    }
}

/// The replies fit the sources: asked in order, built-in sources answered as
/// their specs say, and the lookup stopped only at a failure.
pub open spec fn replies_fit(slots: Seq<SourceSlot>, key: Seq<char>, replies: Seq<SourceReply>) -> bool {
    &&& replies.len() <= slots.len()
    &&& forall|i: int| 0 <= i < replies.len() ==> (slot_name(#[trigger] slots[i]) matches Some(n) ==> replies[i].source == n)
    &&& forall|i: int| 0 <= i < replies.len() ==> (slot_answer(#[trigger] slots[i], key) matches Some(a) ==> replies[i].answer == a)
    &&& forall|i: int| 0 <= i < replies.len() - 1 ==> (#[trigger] replies[i]).answer is Ok
    &&& replies.len() < slots.len() ==> (replies.len() > 0 && replies.last().answer is Err)
}

/// Each reply is one that its source gives: the source's name and its
/// answer for `key`, custom sources included.
pub open spec fn replies_answered(slots: Seq<SourceSlot>, key: Seq<char>, replies: Seq<SourceReply>) -> bool {
    forall|i: int| 0 <= i < replies.len() ==> slot_named(#[trigger] slots[i], replies[i].source)
        && slot_answers(slots[i], key, replies[i].answer)
}

/// Laws of precedence.
pub proof fn lemma_scan_ok_prefix(replies: Seq<SourceReply>)
    requires
        forall|i: int| 0 <= i < replies.len() ==> (#[trigger] replies[i]).answer is Ok,
    ensures
        scan_replies(replies) is Ok,
    decreases replies.len(),
{
    if replies.len() > 0 {
        lemma_scan_ok_prefix(replies.drop_last());
    }
}

/// The values found are those of the replies that have one, in order.
pub proof fn lemma_scan_found(replies: Seq<SourceReply>, i: int, v: Seq<char>)
    requires
        forall|j: int| 0 <= j < replies.len() ==> (#[trigger] replies[j]).answer is Ok,
        0 <= i < replies.len(),
        replies[i].answer == Ok::<Option<Seq<char>>, Seq<char>>(Some(v)),
        forall|j: int| 0 <= j < i ==> (#[trigger] replies[j]).answer == Ok::<Option<Seq<char>>, Seq<char>>(None),
    ensures
        scan_replies(replies) matches Ok(found) && found.len() > 0 && found[0] == (v, replies[i].source),
    decreases replies.len(),
{
    lemma_scan_ok_prefix(replies);
    if replies.len() - 1 > i {
        lemma_scan_found(replies.drop_last(), i, v);
    } else {
        lemma_scan_none(replies.drop_last());
    }
}

proof fn lemma_scan_none(replies: Seq<SourceReply>)
    requires
        forall|j: int| 0 <= j < replies.len() ==> (#[trigger] replies[j]).answer == Ok::<Option<Seq<char>>, Seq<char>>(None),
    ensures
        scan_replies(replies) == Ok::<Seq<RawView>, (Seq<char>, Seq<char>)>(seq![]),
    decreases replies.len(),
{
    if replies.len() > 0 {
        lemma_scan_none(replies.drop_last());
    }
}

/// The highest-priority source that has a key provides its value: when no
/// source fails, the value of the first source with the key is the result.
pub proof fn law_first_source_with_the_key_wins(
    slots: Seq<SourceSlot>,
    key: Seq<char>,
    replies: Seq<SourceReply>,
    i: int,
    v: Seq<char>,
)
    requires
        replies_fit(slots, key, replies),
        forall|j: int| 0 <= j < replies.len() ==> (#[trigger] replies[j]).answer is Ok,
        0 <= i < replies.len(),
        replies[i].answer == Ok::<Option<Seq<char>>, Seq<char>>(Some(v)),
        forall|j: int| 0 <= j < i ==> (#[trigger] replies[j]).answer == Ok::<Option<Seq<char>>, Seq<char>>(None),
    ensures
        lookup_result(key, replies) == Ok::<Option<RawView>, ConfigErrorView>(Some((v, replies[i].source))),
{
    lemma_scan_found(replies, i, v);
}

/// A typed read of a key takes the first source that holds it: when no
/// source fails and source `i` is the first with a value `v`, a successful
/// read gives exactly what parsing `v` gives, and a failed one is an
/// invalid-value error because `v` does not parse. A value further down the
/// precedence never stands in for it.
pub proof fn law_typed_read_parses_the_winning_value<T: FromStr>(
    slots: Seq<SourceSlot>,
    key: Seq<char>,
    replies: Seq<SourceReply>,
    i: int,
    v: Seq<char>,
    r: Result<T, ConfigError>,
)
    requires
        replies_fit(slots, key, replies),
        forall|j: int| 0 <= j < replies.len() ==> (#[trigger] replies[j]).answer is Ok,
        0 <= i < replies.len(),
        replies[i].answer == Ok::<Option<Seq<char>>, Seq<char>>(Some(v)),
        forall|j: int| 0 <= j < i ==> (#[trigger] replies[j]).answer == Ok::<Option<Seq<char>>, Seq<char>>(None),
        typed_fits(key, lookup_result(key, replies), r),
    ensures
        r matches Ok(x) ==> parses_to(v, Some(x)),
        r matches Err(e) ==> is_invalid_value_for(e@, key) && parses_to(v, None::<T>),
{
    law_first_source_with_the_key_wins(slots, key, replies, i, v);
}

/// The same for an optional read: the key is present, so the read is never
/// `Ok(None)`; it gives `Some` of what parsing the first source's value
/// gives, or an invalid-value error when that value does not parse.
pub proof fn law_optional_read_parses_the_winning_value<T: FromStr>(
    slots: Seq<SourceSlot>,
    key: Seq<char>,
    replies: Seq<SourceReply>,
    i: int,
    v: Seq<char>,
    r: Result<Option<T>, ConfigError>,
)
    requires
        replies_fit(slots, key, replies),
        forall|j: int| 0 <= j < replies.len() ==> (#[trigger] replies[j]).answer is Ok,
        0 <= i < replies.len(),
        replies[i].answer == Ok::<Option<Seq<char>>, Seq<char>>(Some(v)),
        forall|j: int| 0 <= j < i ==> (#[trigger] replies[j]).answer == Ok::<Option<Seq<char>>, Seq<char>>(None),
        optional_fits(key, lookup_result(key, replies), r),
    ensures
        r !is Ok || r matches Ok(Some(_)),
        r matches Ok(Some(x)) ==> parses_to(v, Some(x)),
        r matches Err(e) ==> is_invalid_value_for(e@, key) && parses_to(v, None::<T>),
{
    law_first_source_with_the_key_wins(slots, key, replies, i, v);
}

/// Values set on the loader win over every other source: when the first
/// source is the explicit map and holds the key, and no source fails, the
/// lookup yields the explicit value whatever the other sources hold.
pub proof fn law_explicit_values_win(
    slots: Seq<SourceSlot>,
    key: Seq<char>,
    replies: Seq<SourceReply>,
    explicit: MapSource,
    v: Seq<char>,
)
    requires
        replies_fit(slots, key, replies),
        forall|j: int| 0 <= j < replies.len() ==> (#[trigger] replies[j]).answer is Ok,
        slots.len() > 0,
        slots[0] == SourceSlot::Explicit(explicit),
        lookup(explicit@.values, upper_seq(key)) == Some(v),
    ensures
        lookup_result(key, replies) == Ok::<Option<RawView>, ConfigErrorView>(Some((v, explicit@.name))),
{
    assert(slot_answer(slots[0], key) == Some(Ok::<Option<Seq<char>>, Seq<char>>(Some(v))));
    assert(replies.len() > 0);
    assert(replies[0].answer == Ok::<Option<Seq<char>>, Seq<char>>(Some(v)));
    assert(slot_name(slots[0]) == Some(explicit@.name));
    law_first_source_with_the_key_wins(slots, key, replies, 0, v);
}

/// When two or more sources have the key and none fails, the lookup reports
/// a duplicate-variable issue naming every source that had it.
pub proof fn law_shadowed_values_are_reported(
    key: Seq<char>,
    replies: Seq<SourceReply>,
    i: int,
    j: int,
)
    requires
        forall|k: int| 0 <= k < replies.len() ==> (#[trigger] replies[k]).answer is Ok,
        0 <= i < j < replies.len(),
        replies[i].answer matches Ok(Some(_)),
        replies[j].answer matches Ok(Some(_)),
    ensures
        lookup_issue(key, replies) matches Some(issue) && issue.kind == crate::materialize::IssueKind::DuplicateVariable
            && issue.variable == Some(key),
{
    lemma_scan_count(replies, i, j);
}

proof fn lemma_scan_count(replies: Seq<SourceReply>, i: int, j: int)
    requires
        forall|k: int| 0 <= k < replies.len() ==> (#[trigger] replies[k]).answer is Ok,
        0 <= i < j < replies.len(),
        replies[i].answer matches Ok(Some(_)),
        replies[j].answer matches Ok(Some(_)),
    ensures
        scan_replies(replies) matches Ok(found) && found.len() > 1,
    decreases replies.len(),
{
    lemma_scan_ok_prefix(replies);
    if j < replies.len() - 1 {
        lemma_scan_count(replies.drop_last(), i, j);
    } else {
        lemma_scan_at_least_one(replies.drop_last(), i);
    }
}

proof fn lemma_scan_at_least_one(replies: Seq<SourceReply>, i: int)
    requires
        forall|k: int| 0 <= k < replies.len() ==> (#[trigger] replies[k]).answer is Ok,
        0 <= i < replies.len(),
        replies[i].answer matches Ok(Some(_)),
    ensures
        scan_replies(replies) matches Ok(found) && found.len() > 0,
    decreases replies.len(),
{
    lemma_scan_ok_prefix(replies);
    if i < replies.len() - 1 {
        lemma_scan_at_least_one(replies.drop_last(), i);
    }
}

// ---------------------------------------------------------------------
// The session.
// ---------------------------------------------------------------------

/// Parses raw text as `T` with `str::parse`.
///
/// What comes back depends on `T`'s `FromStr` implementation alone; nothing is
/// claimed of it.
#[verifier::external_body]
fn parse_as<T: FromStr>(raw: &str) -> Option<T> {
    match raw.parse::<T>() {
        Ok(value) => Some(value),
        Err(_) => None,
    }
}

/// `result` is what parsing `text` as `T` gives: the value `str::parse`
/// yields, or `None` when it fails.
pub closed spec fn parses_to<T: FromStr>(text: Seq<char>, result: Option<T>) -> bool {
    exists|t: &str| t@ == text && #[trigger] call_ensures(parse_as::<T>, (t,), result)
}

/// Parses `text` through `parse_as` and records that the result is what
/// parsing gives.
fn parse_raw<T: FromStr>(text: &str) -> (r: Option<T>)
    ensures
        parses_to(text@, r),
{
    let parse = parse_as::<T>;
    let r = parse(text);
    r
}

/// The cached outcome for `key`: the first entry with that key.
pub open spec fn cached(cache: Seq<(Seq<char>, RawResult)>, key: Seq<char>) -> Option<RawResult>
    decreases cache.len(),
{
    if cache.len() == 0 {
        None
    } else if cache[0].0 == key {
        Some(cache[0].1)
    } else {
        cached(cache.drop_first(), key)
    }
}

proof fn lemma_cached_at(cache: Seq<(Seq<char>, RawResult)>, key: Seq<char>, j: int)
    requires
        0 <= j < cache.len(),
        cache[j].0 == key,
        forall|i: int| 0 <= i < j ==> cache[i].0 != key,
    ensures
        cached(cache, key) == Some(cache[j].1),
    decreases cache.len(),
{
    if j > 0 {
        assert forall|i: int| 0 <= i < j - 1 implies cache.drop_first()[i].0 != key by {
            assert(cache.drop_first()[i] == cache[i + 1]);
        }
        lemma_cached_at(cache.drop_first(), key, j - 1);
    }
}

proof fn lemma_cached_absent(cache: Seq<(Seq<char>, RawResult)>, key: Seq<char>)
    requires
        forall|i: int| 0 <= i < cache.len() ==> cache[i].0 != key,
    ensures
        cached(cache, key) is None,
    decreases cache.len(),
{
    if cache.len() > 0 {
        assert forall|i: int| 0 <= i < cache.len() - 1 implies cache.drop_first()[i].0 != key by {
            assert(cache.drop_first()[i] == cache[i + 1]);
        }
        lemma_cached_absent(cache.drop_first(), key);
    }
}

proof fn lemma_cached_push(cache: Seq<(Seq<char>, RawResult)>, key: Seq<char>, value: RawResult)
    requires
        cached(cache, key) is None,
    ensures
        cached(cache.push((key, value)), key) == Some(value),
    decreases cache.len(),
{
    if cache.len() > 0 {
        assert(cache.push((key, value)).drop_first() =~= cache.drop_first().push((key, value)));
        lemma_cached_push(cache.drop_first(), key, value);
    }
}

/// The mathematical state of a session: the raw outcome of every key looked
/// up so far, and the issues recorded so far.
pub struct SessionView {
    pub cache: Seq<(Seq<char>, RawResult)>,
    pub issues: Seq<IssueView>,
}

/// How a read treats an absent key.
pub enum ReadKind {
    Required,
    Optional,
    Defaulted,
}

/// The state after a lookup that was not cached.
pub open spec fn after_lookup(s: SessionView, key: Seq<char>, replies: Seq<SourceReply>) -> SessionView {
    SessionView {
        cache: s.cache.push((key, lookup_result(key, replies))),
        issues: match lookup_issue(key, replies) {
            Some(issue) => push_unique(s.issues, issue),
            None => s.issues,
        },
    }
}

/// The raw outcome a session holds for `key`.
pub open spec fn raw_of(s: SessionView, key: Seq<char>) -> RawResult {
    cached(s.cache, key)->0
}

/// The notice an absent key leaves: a missing optional variable, or a
/// default that was used.
pub open spec fn after_read(s: SessionView, key: Seq<char>, kind: ReadKind) -> SessionView {
    if raw_of(s, key) == Ok::<Option<RawView>, ConfigErrorView>(None) {
        match kind {
            ReadKind::Optional => SessionView { cache: s.cache, issues: push_unique(s.issues, missing_optional_issue(key)) },
            ReadKind::Defaulted => SessionView { cache: s.cache, issues: push_unique(s.issues, default_used_issue(key)) },
            ReadKind::Required => s,
        }
    } else {
        s
    }
}

/// A read of `key` takes the session from `old` to `new`: a key looked up
/// before keeps its raw outcome; a new key is looked up across the sources.
pub open spec fn session_read(
    slots: Seq<SourceSlot>,
    old: SessionView,
    new: SessionView,
    key: Seq<char>,
    kind: ReadKind,
) -> bool {
    match cached(old.cache, key) {
        Some(_) => new == after_read(old, key, kind),
        None => exists|replies: Seq<SourceReply>| #[trigger] replies_fit(slots, key, replies)
            && replies_answered(slots, key, replies)
            && new == after_read(after_lookup(old, key, replies), key, kind),
    }
}

/// The shape of a read, whatever the sources answered: a key looked up
/// before keeps its raw outcome; a new key gets the outcome of replies that
/// fit the built-in sources.
pub open spec fn read_shape(
    slots: Seq<SourceSlot>,
    old: SessionView,
    new: SessionView,
    key: Seq<char>,
    kind: ReadKind,
) -> bool {
    match cached(old.cache, key) {
        Some(_) => new == after_read(old, key, kind),
        None => exists|replies: Seq<SourceReply>| #[trigger] replies_fit(slots, key, replies) && new == after_read(
            after_lookup(old, key, replies),
            key,
            kind,
        ),
    }
}

proof fn lemma_cached_kept(cache: Seq<(Seq<char>, RawResult)>, k: Seq<char>, entry: (Seq<char>, RawResult))
    requires
        cached(cache, k) is Some,
    ensures
        cached(cache.push(entry), k) == cached(cache, k),
    decreases cache.len(),
{
    if cache[0].0 != k {
        assert(cache.push(entry).drop_first() =~= cache.drop_first().push(entry));
        lemma_cached_kept(cache.drop_first(), k, entry);
    }
}

/// Within one session a read never changes what an earlier read found: a key
/// that was looked up keeps its raw outcome, and after a read the key read
/// has one.
pub proof fn law_session_reads_are_stable(
    slots: Seq<SourceSlot>,
    old: SessionView,
    new: SessionView,
    key: Seq<char>,
    kind: ReadKind,
    other: Seq<char>,
)
    requires
        read_shape(slots, old, new, key, kind),
    ensures
        cached(new.cache, key) is Some,
        cached(old.cache, other) is Some ==> cached(new.cache, other) == cached(old.cache, other),
{
    match cached(old.cache, key) {
        Some(_) => {},
        None => {
            let replies = choose|replies: Seq<SourceReply>| #[trigger] replies_fit(slots, key, replies) && new
                == after_read(after_lookup(old, key, replies), key, kind);
            let entry = (key, lookup_result(key, replies));
            lemma_cached_push(old.cache, key, lookup_result(key, replies));
            if cached(old.cache, other) is Some {
                lemma_cached_kept(old.cache, other, entry);
            }
        },
    }
}

/// The `InvalidValue` error for `key`.
pub open spec fn is_invalid_value_for(e: ConfigErrorView, key: Seq<char>) -> bool {
    &&& e.kind == ConfigErrorKind::InvalidValue
    &&& e.key == Some(key)
    &&& e.source is None
    &&& e.expected_type is None
    &&& e.message == invalid_value_message()
}

/// A typed result agrees with the raw outcome: a failure is passed on, an
/// absent key is a missing-variable error, and the winning raw string gives
/// the value that parsing it gives, or an invalid-value error when parsing
/// fails.
pub open spec fn typed_fits<T: FromStr>(key: Seq<char>, raw: RawResult, r: Result<T, ConfigError>) -> bool {
    match raw {
        Err(e) => r matches Err(x) && x@ == e,
        Ok(None) => r matches Err(x) && x@ == missing_error(key),
        Ok(Some(found)) => parsed_fits(key, found.0, r),
    }
}

/// The result of parsing the winning raw string `text` of `key`: the parsed
/// value, or an invalid-value error when parsing fails.
pub open spec fn parsed_fits<T: FromStr>(key: Seq<char>, text: Seq<char>, r: Result<T, ConfigError>) -> bool {
    match r {
        Ok(v) => parses_to(text, Some(v)),
        Err(x) => is_invalid_value_for(x@, key) && parses_to(text, None::<T>),
    }
}

/// The same for an optional read: an absent key is `Ok(None)`, and a present
/// one gives `Some` of what parsing its winning raw string gives.
pub open spec fn optional_fits<T: FromStr>(key: Seq<char>, raw: RawResult, r: Result<Option<T>, ConfigError>) -> bool {
    match raw {
        Err(e) => r matches Err(x) && x@ == e,
        Ok(None) => r matches Ok(None),
        Ok(Some(found)) => match r {
            Ok(Some(v)) => parses_to(found.0, Some(v)),
            Ok(None) => false,
            Err(x) => is_invalid_value_for(x@, key) && parses_to(found.0, None::<T>),
        },
    }
}

/// A single, consistent lookup session.
///
/// Raw strings are cached for the lifetime of the session, so every read of a
/// key within it sees the same raw value. Parsing is type-specific and
/// happens on every typed call.
pub struct ResolveSession {
    runtime: Arc<Runtime>,
    raw_cache: Vec<(String, Result<Option<ResolvedRaw>, ConfigError>)>,
    issues: Vec<MaterializationIssue>,
}

pub open spec fn cache_view(v: Seq<(String, Result<Option<ResolvedRaw>, ConfigError>)>) -> Seq<(Seq<char>, RawResult)> {
    v.map_values(|e: (String, Result<Option<ResolvedRaw>, ConfigError>)| (e.0@, raw_result_view(e.1)))
}

impl View for ResolveSession {
    type V = SessionView;

    closed spec fn view(&self) -> SessionView {
        SessionView { cache: cache_view(self.raw_cache@), issues: issues_view(self.issues@) }
    }
}

fn copy_raw_result(r: &Result<Option<ResolvedRaw>, ConfigError>) -> (c: Result<Option<ResolvedRaw>, ConfigError>)
    ensures
        raw_result_view(c) == raw_result_view(*r),
{
    match r {
        Ok(Some(raw)) => Ok(Some(ResolvedRaw { value: raw.value.clone(), source: raw.source.clone() })),
        Ok(None) => Ok(None),
        Err(e) => Err(e.duplicate()),
    }
}

impl ResolveSession {
    pub closed spec fn slots(&self) -> Seq<SourceSlot> {
        (*self.runtime).slots()
    }

    pub closed spec fn runtime_value(&self) -> Arc<Runtime> {
        self.runtime
    }

    pub fn new(runtime: Arc<Runtime>) -> (s: Self)
        ensures
            s@.cache == Seq::<(Seq<char>, RawResult)>::empty(),
            s@.issues == Seq::<IssueView>::empty(),
            s.runtime_value() == runtime,
            s.slots() == runtime.slots(),
    {
        let s = ResolveSession { runtime, raw_cache: Vec::new(), issues: Vec::new() };
        assert(s@.cache =~= Seq::<(Seq<char>, RawResult)>::empty());
        assert(s@.issues =~= Seq::<IssueView>::empty());
        s
    }

    /// Resolves a required variable and parses it as `T`.
    pub fn get<T: FromStr>(&mut self, key: &str) -> (r: Result<T, ConfigError>)
        ensures
            final(self).runtime_value() == old(self).runtime_value(),
            !valid_key(key@) ==> (r matches Err(e) && e@ == invalid_key_error(key@) && final(self)@ == old(self)@),
            valid_key(key@) ==> session_read(old(self).slots(), old(self)@, final(self)@, key@, ReadKind::Required)
                && typed_fits(key@, raw_of(final(self)@, key@), r),
    {
        if let Err(e) = self.validate_and_register(key) {
            return Err(e);
        }
        let raw = self.read_raw(key);
        match raw {
            Err(e) => Err(e),
            Ok(None) => {
                let error = ConfigError::missing(key);
                self.runtime.emit_error(&error);
                Err(error)
            },
            Ok(Some(raw)) => match parse_raw::<T>(raw.value.as_str()) {
                Some(v) => Ok(v),
                None => {
                    let error = ConfigError::invalid_value(key);
                    self.runtime.emit_error(&error);
                    Err(error)
                },
            },
        }
    }

    /// Resolves an optional variable. `None` only means that the key is
    /// absent: a present malformed value is still an error.
    pub fn get_optional<T: FromStr>(&mut self, key: &str) -> (r: Result<Option<T>, ConfigError>)
        ensures
            final(self).runtime_value() == old(self).runtime_value(),
            !valid_key(key@) ==> (r matches Err(e) && e@ == invalid_key_error(key@) && final(self)@ == old(self)@),
            valid_key(key@) ==> session_read(old(self).slots(), old(self)@, final(self)@, key@, ReadKind::Optional)
                && optional_fits(key@, raw_of(final(self)@, key@), r),
    {
        if let Err(e) = self.validate_and_register(key) {
            return Err(e);
        }
        let ghost before = self@;
        let raw = self.read_raw(key);
        match raw {
            Err(e) => Err(e),
            Ok(None) => {
                self.push_issue(MaterializationIssue::missing_optional(key));
                Ok(None)
            },
            Ok(Some(raw)) => match parse_raw::<T>(raw.value.as_str()) {
                Some(v) => Ok(Some(v)),
                None => {
                    let error = ConfigError::invalid_value(key);
                    self.runtime.emit_error(&error);
                    Err(error)
                },
            },
        }
    }

    /// Resolves a variable, or records that the default was used.
    pub fn get_or<T: FromStr>(&mut self, key: &str, default: T) -> (r: Result<T, ConfigError>)
        ensures
            final(self).runtime_value() == old(self).runtime_value(),
            !valid_key(key@) ==> (r matches Err(e) && e@ == invalid_key_error(key@) && final(self)@ == old(self)@),
            valid_key(key@) ==> session_read(old(self).slots(), old(self)@, final(self)@, key@, ReadKind::Defaulted)
                && match raw_of(final(self)@, key@) {
                    Ok(None) => r == Ok::<T, ConfigError>(default),
                    Err(e) => r matches Err(x) && x@ == e,
                    Ok(Some(found)) => parsed_fits(key@, found.0, r),
                },
    {
        if let Err(e) = self.validate_and_register(key) {
            return Err(e);
        }
        let raw = self.read_raw(key);
        match raw {
            Err(e) => Err(e),
            Ok(None) => {
                self.push_issue(MaterializationIssue::default_used(key));
                Ok(default)
            },
            Ok(Some(raw)) => match parse_raw::<T>(raw.value.as_str()) {
                Some(v) => Ok(v),
                None => {
                    let error = ConfigError::invalid_value(key);
                    self.runtime.emit_error(&error);
                    Err(error)
                },
            },
        }
    }

    pub fn runtime(&self) -> (r: Arc<Runtime>)
        ensures
            r == self.runtime_value(),
    {
        self.runtime.clone()
    }

    /// Validates a key for a deferred field and registers it as declared.
    pub fn register_deferred_key(&self, key: &str) -> (r: Result<(), ConfigError>)
        ensures
            r is Ok <==> valid_key(key@),
            r matches Err(e) ==> e@ == invalid_key_error(key@),
    {
        self.validate_and_register(key)
    }

    /// Records an issue unless the session already holds the same one.
    pub fn push_issue(&mut self, issue: MaterializationIssue)
        ensures
            final(self).runtime_value() == old(self).runtime_value(),
            final(self)@.cache == old(self)@.cache,
            final(self)@.issues == push_unique(old(self)@.issues, issue@),
    {
        push_issue_unique(&mut self.issues, issue);
    }

    /// A copy of the issues recorded so far.
    pub(crate) fn recorded_issues(&self) -> (v: Vec<MaterializationIssue>)
        ensures
            issues_view(v@) == self@.issues,
    {
        let mut v: Vec<MaterializationIssue> = Vec::new();
        let mut k: usize = 0;
        while k < self.issues.len()
            invariant
                k <= self.issues@.len(),
                v@.len() == k,
                forall|m: int| 0 <= m < k ==> (#[trigger] v@[m])@ == self.issues@[m]@,
            decreases self.issues@.len() - k,
        {
            v.push(self.issues[k].copy());
            k = k + 1;
        }
        assert(issues_view(v@) =~= issues_view(self.issues@));
        v
    }

    /// The issues of this session.
    pub fn finish(self) -> (v: Vec<MaterializationIssue>)
        ensures
            issues_view(v@) == self@.issues,
    {
        self.issues
    }

    fn validate_and_register(&self, key: &str) -> (r: Result<(), ConfigError>)
        ensures
            r is Ok <==> valid_key(key@),
            r matches Err(e) ==> e@ == invalid_key_error(key@),
    {
        if !is_valid_key(key) {
            let error = ConfigError::invalid_key(key);
            self.runtime.emit_error(&error);
            return Err(error);
        }
        self.runtime.register_key(key);
        Ok(())
    }

    fn find_cached(&self, key: &str) -> (r: Option<usize>)
        ensures
            match r {
                Some(j) => j < self.raw_cache@.len() && cached(self@.cache, key@) == Some(raw_result_view(self.raw_cache@[j as int].1)),
                None => cached(self@.cache, key@) is None,
            },
    {
        let mut i: usize = 0;
        while i < self.raw_cache.len()
            invariant
                i <= self.raw_cache@.len(),
                forall|m: int| 0 <= m < i ==> self.raw_cache@[m].0@ != key@,
            decreases self.raw_cache@.len() - i,
        {
            if str_eq(self.raw_cache[i].0.as_str(), key) {
                proof {
                    let c = self@.cache;
                    assert forall|m: int| 0 <= m < i implies c[m].0 != key@ by {}
                    lemma_cached_at(c, key@, i as int);
                }
                return Some(i);
            }
            i = i + 1;
        }
        proof {
            let c = self@.cache;
            assert forall|m: int| 0 <= m < c.len() implies c[m].0 != key@ by {}
            lemma_cached_absent(c, key@);
        }
        None
    }

    /// The raw outcome for `key`, from the cache or from the sources.
    fn read_raw(&mut self, key: &str) -> (r: Result<Option<ResolvedRaw>, ConfigError>)
        ensures
            final(self).runtime_value() == old(self).runtime_value(),
            session_read(old(self).slots(), old(self)@, final(self)@, key@, ReadKind::Required),
            raw_result_view(r) == raw_of(final(self)@, key@),
            cached(final(self)@.cache, key@) is Some,
    {
        if let Some(j) = self.find_cached(key) {
            return copy_raw_result(&self.raw_cache[j].1);
        }
        self.runtime.emit(
            Event {
                level: Level::Trace,
                kind: EventKind::VariableLookup,
                field: None,
                key: Some(key),
                source: None,
                message: "[+] Looking up configuration variable",
            },
        );
        let ghost before = self@;
        let (result, Ghost(replies)) = self.lookup_sources(key);
        let ghost mid = self@;
        let copy = copy_raw_result(&result);
        self.raw_cache.push((key.to_owned(), copy));
        proof {
            assert(cache_view(self.raw_cache@) =~= mid.cache.push((key@, raw_result_view(result))));
            lemma_cached_push(before.cache, key@, lookup_result(key@, replies));
            assert(self@ == after_lookup(before, key@, replies));
        }
        result
    }

    /// Asks every source in precedence order. The first source that has the
    /// key wins; further matches are reported as a duplicate; a failing
    /// source stops the lookup.
    fn lookup_sources(&mut self, key: &str) -> (out: (Result<Option<ResolvedRaw>, ConfigError>, Ghost<Seq<SourceReply>>))
        ensures
            final(self).runtime_value() == old(self).runtime_value(),
            replies_fit(old(self).slots(), key@, out.1@),
            replies_answered(old(self).slots(), key@, out.1@),
            raw_result_view(out.0) == lookup_result(key@, out.1@),
            final(self)@.cache == old(self)@.cache,
            final(self)@.issues == match lookup_issue(key@, out.1@) {
                Some(issue) => push_unique(old(self)@.issues, issue),
                None => old(self)@.issues,
            },
    {
        let ghost slots = self.slots();
        let mut found: Vec<ResolvedRaw> = Vec::new();
        let ghost mut replies: Seq<SourceReply> = seq![];
        let n = self.runtime.source_count();
        let mut i: usize = 0;
        assert(found@.map_values(|r: ResolvedRaw| (r.value@, r.source@)) =~= Seq::<RawView>::empty());
        while i < n
            invariant
                n == slots.len(),
                slots == self.slots(),
                i <= n,
                replies.len() == i,
                forall|j: int| 0 <= j < i ==> (slot_name(#[trigger] slots[j]) matches Some(nm) ==> replies[j].source == nm),
                forall|j: int| 0 <= j < i ==> (slot_answer(#[trigger] slots[j], key@) matches Some(a) ==> replies[j].answer == a),
                forall|j: int| 0 <= j < i ==> (#[trigger] replies[j]).answer is Ok,
                replies_answered(slots, key@, replies),
                scan_replies(replies) == Ok::<Seq<RawView>, (Seq<char>, Seq<char>)>(found@.map_values(|r: ResolvedRaw| (r.value@, r.source@))),
                self@ == old(self)@,
                self.runtime_value() == old(self).runtime_value(),
            decreases n - i,
        {
            let source = self.runtime.source_at(i);
            let answer = source.get(key);
            let name = source.name();
            let ghost reply = SourceReply { source: name@, answer: answer_view(answer) };
            let ghost before = replies;
            proof {
                replies = replies.push(reply);
                assert(replies.drop_last() =~= before);
            }
            match answer {
                Ok(Some(value)) => {
                    let ghost fv = found@.map_values(|r: ResolvedRaw| (r.value@, r.source@));
                    found.push(ResolvedRaw { value, source: name.to_owned() });
                    assert(found@.map_values(|r: ResolvedRaw| (r.value@, r.source@)) =~= fv.push((reply.answer->Ok_0->Some_0, name@)));
                },
                Ok(None) => {},
                Err(error) => {
                    let error = ConfigError::source(name, Some(key), error.message());
                    self.runtime.emit_error(&error);
                    proof {
                        assert forall|j: int| 0 <= j < replies.len() - 1 implies (#[trigger] replies[j]).answer is Ok by {
                            assert(replies[j] == before[j]);
                        }
                    }
                    return (Err(error), Ghost(replies));
                },
            }
            i = i + 1;
        }
        let ghost fv = found@.map_values(|r: ResolvedRaw| (r.value@, r.source@));
        if found.len() > 1 {
            let mut sources: Vec<String> = Vec::new();
            let mut k: usize = 0;
            while k < found.len()
                invariant
                    k <= found@.len(),
                    sources@.len() == k,
                    forall|m: int| 0 <= m < k ==> (#[trigger] sources@[m])@ == found@[m].source@,
                decreases found@.len() - k,
            {
                sources.push(found[k].source.clone());
                k = k + 1;
            }
            assert(strings_view(sources@) =~= fv.map_values(|p: RawView| p.1));
            self.push_issue(MaterializationIssue::duplicate(key, &sources));
        }
        let selected = if found.len() > 0 {
            let first = &found[0];
            self.runtime.emit(
                Event {
                    level: Level::Debug,
                    kind: EventKind::VariableResolved,
                    field: None,
                    key: Some(key),
                    source: Some(first.source.as_str()),
                    message: "[+] Configuration variable was resolved",
                },
            );
            Some(ResolvedRaw { value: first.value.clone(), source: first.source.clone() })
        } else {
            None
        };
        (Ok(selected), Ghost(replies))
    }
}

} // verus!
