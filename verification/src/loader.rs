//! Loader construction, source precedence and the `Loaded<C>` handle.

use std::ops::Deref;
use std::sync::Arc;

use vstd::prelude::*;

use crate::context::{ConfigContext, EnvConfig};
use crate::error::{io_error, ConfigError, ConfigErrorView};
use crate::materialize::{
    collected_issues, dedup, duplicate_in_source_issue, law_dedup_keeps_each_issue_once, final_report, is_rejected, issue_log_level, issues_view,
    settle, issue_events, report_events, run_materialize, starts_fresh, IssueView, Materialize, MaterializationContext, MaterializationError,
    MaterializationIssue, MaterializationMode, MaterializationReport, Materialized,
};
use crate::resolver::{audit, reports_fit, SessionView};
use crate::source::Listing;
use crate::reporter::{events_view, Event, EventKind, Level, NoopReporter, Reporter};
use crate::resolver::{Runtime, SourceSlot};
use crate::source::dotenv::{dotenv_spec, line_error, DotenvOutcome};
use crate::source::process::ProcessEnvView;
use crate::source::{MapSource, ParsedDotenv, ProcessEnvSource, Source};
use crate::table::{law_lookup_after_upsert, lookup, pairs_view, strings_view, upsert, Pairs};
use crate::text::{push_str, upper_seq};

verus! {

/// A registered dotenv file.
#[derive(Debug, Clone)]
pub struct DotenvFile {
    pub path: String,
    pub required: bool,
}

/// What reading one registered dotenv file gave.
#[derive(Debug, Clone)]
pub enum DotenvInput {
    /// An optional file that does not exist.
    Absent,
    /// A file that could not be read, with the file's name and the reason.
    Unreadable { name: String, message: String },
    /// The text of the file called `name`.
    Contents { name: String, text: String },
}

pub enum DotenvInputView {
    Absent,
    Unreadable(Seq<char>, Seq<char>),
    Contents(Seq<char>, Seq<char>),
}

pub open spec fn dotenv_input_view(d: DotenvInput) -> DotenvInputView {
    match d {
        DotenvInput::Absent => DotenvInputView::Absent,
        DotenvInput::Unreadable { name, message } => DotenvInputView::Unreadable(name@, message@),
        DotenvInput::Contents { name, text } => DotenvInputView::Contents(name@, text@),
    }
}

pub open spec fn dotenv_inputs_view(v: Seq<DotenvInput>) -> Seq<DotenvInputView> {
    v.map_values(|d: DotenvInput| dotenv_input_view(d))
}

/// The dotenv sources that the inputs give, each a name and its entries, and
/// the duplicate-in-source issues; or the first input that fails.
pub open spec fn dotenv_stage(inputs: Seq<DotenvInputView>) -> Result<(Seq<(Seq<char>, Pairs)>, Seq<IssueView>), ConfigErrorView>
    decreases inputs.len(),
{
    if inputs.len() == 0 {
        Ok((seq![], seq![]))
    } else {
        match dotenv_stage(inputs.drop_last()) {
            Err(e) => Err(e),
            Ok((sources, issues)) => match inputs.last() {
                DotenvInputView::Absent => Ok((sources, issues)),
                DotenvInputView::Unreadable(name, message) => Err(io_error(name, message)),
                DotenvInputView::Contents(name, text) => match dotenv_spec(text) {
                    DotenvOutcome::Failed(n, issue) => Err(line_error(name, n, issue)),
                    DotenvOutcome::Parsed(entries, dups) => Ok((
                        sources.push((name, entries)),
                        issues + dups.map_values(|k: Seq<char>| duplicate_in_source_issue(k, name)),
                    )),
                },
            },
        }
    }
}

/// The explicit values, inserted in the order they were set (upper-cased, as
/// a map source stores them; a later value for a key wins).
pub open spec fn explicit_entries(log: Pairs) -> Pairs
    decreases log.len(),
{
    if log.len() == 0 {
        seq![]
    } else {
        upsert(explicit_entries(log.drop_last()), upper_seq(log.last().0), log.last().1)
    }
}

/// The value of the last `set` whose key upper-cases to `k`.
pub open spec fn last_set(log: Pairs, k: Seq<char>) -> Option<Seq<char>>
    decreases log.len(),
{
    if log.len() == 0 {
        None
    } else if upper_seq(log.last().0) == k {
        Some(log.last().1)
    } else {
        last_set(log.drop_last(), k)
    }
}

/// Of the values set on a loader, the explicit source holds under each
/// upper-cased key the value set last under any spelling of that key.
pub proof fn law_last_set_value_wins(log: Pairs, k: Seq<char>)
    ensures
        lookup(explicit_entries(log), k) == last_set(log, k),
    decreases log.len(),
{
    if log.len() > 0 {
        law_last_set_value_wins(log.drop_last(), k);
        law_lookup_after_upsert(explicit_entries(log.drop_last()), upper_seq(log.last().0), log.last().1, k);
    }
}

pub open spec fn environment_view(environment: Option<ProcessEnvSource>) -> Option<ProcessEnvView> {
    match environment {
        Some(p) => Some(p@),
        None => None,
    }
}

/// `report` holds, each once and in order of first appearance, the issues
/// of the dotenv files and then those of reading the eager fields.
pub open spec fn reported_once(report: Seq<IssueView>, dotenv_issues: Seq<IssueView>, field_issues: Seq<IssueView>) -> bool {
    report == dedup(dotenv_issues + field_issues)
}

/// `context` starts the construction of a configuration: a new context,
/// with nothing cached and no issue recorded, over a runtime whose sources
/// fit `plan` and whose audit is scoped by `prefix`.
pub open spec fn starts_construction(context: ConfigContext, plan: Seq<SlotPlan>, prefix: Option<Seq<char>>) -> bool {
    &&& context.session_view() == (SessionView { cache: seq![], issues: seq![] })
    &&& slots_fit(context.slots(), plan)
    &&& (*context.runtime_value()).audit_prefix() == prefix
}

/// How loading ends once the eager fields were read: a value becomes the
/// loaded configuration, whose issues are those of the dotenv files and then
/// those of the eager reads, each once; an error is returned as it is.
pub open spec fn concluded<C>(
    outcome: Result<C, ConfigError>,
    r: Result<Loaded<C>, ConfigError>,
    dotenv_issues: Seq<IssueView>,
    field_issues: Seq<IssueView>,
) -> bool {
    match outcome {
        Ok(v) => r matches Ok(l) && l.config_value() == v && reported_once(l.load_issues_view(), dotenv_issues, field_issues),
        Err(e) => r == Err::<Loaded<C>, ConfigError>(e),
    }
}

/// What one source of a loaded runtime is.
pub enum SlotPlan {
    Explicit(Pairs),
    /// A custom source, the very slot registered on the loader.
    Custom(SourceSlot),
    Process(ProcessEnvView),
    Dotenv(Seq<char>, Pairs),
}

pub open spec fn slot_fits(slot: SourceSlot, plan: SlotPlan) -> bool {
    match (slot, plan) {
        (SourceSlot::Explicit(m), SlotPlan::Explicit(values)) => m@.name == "explicit"@ && m@.values == values,
        (SourceSlot::Custom(_), SlotPlan::Custom(registered)) => slot == registered,
        (SourceSlot::Process(p), SlotPlan::Process(v)) => p@ == v,
        (SourceSlot::Dotenv(d), SlotPlan::Dotenv(name, values)) => d@.name == name && d@.values == values,
        _ => false,
    }
}

pub open spec fn slots_fit(slots: Seq<SourceSlot>, plan: Seq<SlotPlan>) -> bool {
    &&& slots.len() == plan.len()
    &&& forall|i: int| 0 <= i < slots.len() ==> slot_fits(#[trigger] slots[i], plan[i])
}

/// The sources in precedence order: explicit values, custom sources in
/// registration order, the process environment, then dotenv files in
/// registration order.
pub open spec fn source_plan(
    explicit: Pairs,
    customs: Seq<SourceSlot>,
    process: Option<ProcessEnvView>,
    dotenv: Seq<(Seq<char>, Pairs)>,
) -> Seq<SlotPlan> {
    let e = if explicit.len() > 0 {
        seq![SlotPlan::Explicit(explicit_entries(explicit))]
    } else {
        seq![]
    };
    let c = customs.map_values(|slot: SourceSlot| SlotPlan::Custom(slot));
    let p = match process {
        Some(v) => seq![SlotPlan::Process(v)],
        None => seq![],
    };
    let d = dotenv.map_values(|s: (Seq<char>, Pairs)| SlotPlan::Dotenv(s.0, s.1));
    e + c + p + d
}

/// Builds a configuration from ordered string sources.
///
/// The first source containing a key wins; the other matches are reported as
/// a duplicate-variable issue.
pub struct Loader {
    explicit_values: Vec<(String, String)>,
    custom_sources: Vec<SourceSlot>,
    dotenv_files: Vec<DotenvFile>,
    include_process_environment: bool,
    prefix: Option<String>,
    reporter: Box<dyn Reporter>,
}

/// `slot` is a custom slot holding `source`: it answers by spec exactly when
/// `source` does, with the same name and the same answers.
pub open spec fn stands_for<S: Source>(slot: SourceSlot, source: S) -> bool {
    &&& slot matches SourceSlot::Custom(c)
    &&& c.answers_by_spec() == source.answers_by_spec()
    &&& c.spec_name() == source.spec_name()
    &&& forall|k: Seq<char>| #[trigger] c.spec_get(k) == source.spec_get(k)
}

pub open spec fn dotenv_files_view(v: Seq<DotenvFile>) -> Seq<(Seq<char>, bool)> {
    v.map_values(|f: DotenvFile| (f.path@, f.required))
}

/// The slot of a custom source: the source behind a trait object.
///
/// Wraps `Box::new` and the coercion to `dyn Source`: the boxed source is
/// `source`, so it answers by spec exactly when `source` does, with the same
/// name and the same answers.
#[verifier::external_body]
fn custom_slot<S: Source + 'static>(source: S) -> (slot: SourceSlot)
    ensures
        stands_for(slot, source),
{
    SourceSlot::Custom(Box::new(source))
}

fn boxed_reporter<R: Reporter + 'static>(reporter: R) -> Box<dyn Reporter> {
    Box::new(reporter)
}

impl Default for Loader {
    fn default() -> (l: Self)
        ensures
            l.explicit() == Seq::<(Seq<char>, Seq<char>)>::empty(),
            l.custom_slots() == Seq::<SourceSlot>::empty(),
            l.dotenv() == Seq::<(Seq<char>, bool)>::empty(),
            l.includes_process(),
            l.prefix_view() is None,
    {
        Self::new()
    }
}

impl Loader {
    /// The values set, in the order they were set.
    pub closed spec fn explicit(&self) -> Pairs {
        pairs_view(self.explicit_values@)
    }

    /// The custom sources, in registration order.
    pub closed spec fn custom_slots(&self) -> Seq<SourceSlot> {
        self.custom_sources@
    }

    #[verifier::type_invariant]
    closed spec fn wf(&self) -> bool {
        forall|i: int| 0 <= i < self.custom_sources@.len() ==> (#[trigger] self.custom_sources@[i]) is Custom
    }

    pub closed spec fn dotenv(&self) -> Seq<(Seq<char>, bool)> {
        dotenv_files_view(self.dotenv_files@)
    }

    pub closed spec fn includes_process(&self) -> bool {
        self.include_process_environment
    }

    pub closed spec fn prefix_view(&self) -> Option<Seq<char>> {
        crate::error::opt_string_view(self.prefix)
    }

    pub fn new() -> (l: Self)
        ensures
            l.explicit() == Seq::<(Seq<char>, Seq<char>)>::empty(),
            l.custom_slots() == Seq::<SourceSlot>::empty(),
            l.dotenv() == Seq::<(Seq<char>, bool)>::empty(),
            l.includes_process(),
            l.prefix_view() is None,
    {
        let l = Loader {
            explicit_values: Vec::new(),
            custom_sources: Vec::new(),
            dotenv_files: Vec::new(),
            include_process_environment: true,
            prefix: None,
            reporter: boxed_reporter(NoopReporter),
        };
        assert(l.explicit() =~= Seq::<(Seq<char>, Seq<char>)>::empty());
        assert(l.dotenv() =~= Seq::<(Seq<char>, bool)>::empty());
        l
    }

    /// Adds a highest-priority explicit value.
    pub fn set(self, key: &str, value: &str) -> (l: Self)
        ensures
            l.explicit() == self.explicit().push((key@, value@)),
            l.custom_slots() == self.custom_slots(),
            l.dotenv() == self.dotenv(),
            l.includes_process() == self.includes_process(),
            l.prefix_view() == self.prefix_view(),
    {
        proof {
            use_type_invariant(&self);
        }
        let ghost before = self.explicit();
        let Loader { mut explicit_values, custom_sources, dotenv_files, include_process_environment, prefix, reporter } = self;
        explicit_values.push((key.to_owned(), value.to_owned()));
        let l = Loader { explicit_values, custom_sources, dotenv_files, include_process_environment, prefix, reporter };
        assert(l.explicit() =~= before.push((key@, value@)));
        l
    }

    /// Adds an application-defined source above the process and dotenv sources.
    pub fn source<S: Source + 'static>(self, source: S) -> (l: Self)
        ensures
            l.explicit() == self.explicit(),
            l.custom_slots().len() == self.custom_slots().len() + 1,
            l.custom_slots().drop_last() == self.custom_slots(),
            stands_for(l.custom_slots().last(), source),
            l.dotenv() == self.dotenv(),
            l.includes_process() == self.includes_process(),
            l.prefix_view() == self.prefix_view(),
    {
        proof {
            use_type_invariant(&self);
        }
        let slot = custom_slot(source);
        let Loader { explicit_values, mut custom_sources, dotenv_files, include_process_environment, prefix, reporter } = self;
        let ghost before = custom_sources@;
        custom_sources.push(slot);
        assert forall|i: int| 0 <= i < custom_sources@.len() implies (#[trigger] custom_sources@[i]) is Custom by {
            if i < before.len() {
                assert(custom_sources@[i] == before[i]);
            }
        }
        Loader { explicit_values, custom_sources, dotenv_files, include_process_environment, prefix, reporter }
    }

    /// Registers a required dotenv file, read when the configuration is loaded.
    pub fn add_dotenv(self, path: &str) -> (l: Self)
        ensures
            l.explicit() == self.explicit(),
            l.custom_slots() == self.custom_slots(),
            l.dotenv() == self.dotenv().push((path@, true)),
            l.includes_process() == self.includes_process(),
            l.prefix_view() == self.prefix_view(),
    {
        proof {
            use_type_invariant(&self);
        }
        let ghost before = self.dotenv();
        let Loader { explicit_values, custom_sources, mut dotenv_files, include_process_environment, prefix, reporter } = self;
        dotenv_files.push(DotenvFile { path: path.to_owned(), required: true });
        let l = Loader { explicit_values, custom_sources, dotenv_files, include_process_environment, prefix, reporter };
        assert(l.dotenv() =~= before.push((path@, true)));
        l
    }

    /// Registers a dotenv file that is skipped when it does not exist.
    pub fn add_dotenv_optional(self, path: &str) -> (l: Self)
        ensures
            l.explicit() == self.explicit(),
            l.custom_slots() == self.custom_slots(),
            l.dotenv() == self.dotenv().push((path@, false)),
            l.includes_process() == self.includes_process(),
            l.prefix_view() == self.prefix_view(),
    {
        proof {
            use_type_invariant(&self);
        }
        let ghost before = self.dotenv();
        let Loader { explicit_values, custom_sources, mut dotenv_files, include_process_environment, prefix, reporter } = self;
        dotenv_files.push(DotenvFile { path: path.to_owned(), required: false });
        let l = Loader { explicit_values, custom_sources, dotenv_files, include_process_environment, prefix, reporter };
        assert(l.dotenv() =~= before.push((path@, false)));
        l
    }

    /// Leaves the process environment out of the sources.
    pub fn without_process_environment(self) -> (l: Self)
        ensures
            l.explicit() == self.explicit(),
            l.custom_slots() == self.custom_slots(),
            l.dotenv() == self.dotenv(),
            !l.includes_process(),
            l.prefix_view() == self.prefix_view(),
    {
        proof {
            use_type_invariant(&self);
        }
        let Loader { explicit_values, custom_sources, dotenv_files, include_process_environment, prefix, reporter } = self;
        Loader { explicit_values, custom_sources, dotenv_files, include_process_environment: false, prefix, reporter }
    }

    /// Limits the audit of unknown variables to keys with this prefix.
    pub fn prefix(self, prefix: &str) -> (l: Self)
        ensures
            l.explicit() == self.explicit(),
            l.custom_slots() == self.custom_slots(),
            l.dotenv() == self.dotenv(),
            l.includes_process() == self.includes_process(),
            l.prefix_view() == Some(prefix@),
    {
        let p = Some(prefix.to_owned());
        proof {
            use_type_invariant(&self);
        }
        let Loader { explicit_values, custom_sources, dotenv_files, include_process_environment, prefix: _, reporter } = self;
        Loader { explicit_values, custom_sources, dotenv_files, include_process_environment, prefix: p, reporter }
    }

    /// Installs an event reporter.
    pub fn reporter<R: Reporter + 'static>(self, reporter: R) -> (l: Self)
        ensures
            l.explicit() == self.explicit(),
            l.custom_slots() == self.custom_slots(),
            l.dotenv() == self.dotenv(),
            l.includes_process() == self.includes_process(),
            l.prefix_view() == self.prefix_view(),
    {
        let boxed = boxed_reporter(reporter);
        proof {
            use_type_invariant(&self);
        }
        let Loader { explicit_values, custom_sources, dotenv_files, include_process_environment, prefix, reporter: _ } = self;
        Loader { explicit_values, custom_sources, dotenv_files, include_process_environment, prefix, reporter: boxed }
    }

    /// The registered dotenv files, in registration order.
    pub fn dotenv_files(&self) -> (f: &Vec<DotenvFile>)
        ensures
            dotenv_files_view(f@) == self.dotenv(),
    {
        &self.dotenv_files
    }

    /// Whether the process environment is one of the sources.
    pub fn includes_process_environment(&self) -> (b: bool)
        ensures
            b == self.includes_process(),
    {
        self.include_process_environment
    }
}

impl Loader {
    /// Constructs a strongly typed configuration from the sources, given what
    /// the process environment and the registered dotenv files hold.
    ///
    /// `environment` is the snapshot of the process environment, used when the
    /// loader includes it. `dotenv` holds one input per registered dotenv
    /// file, in registration order. The first dotenv file that cannot be read
    /// or parsed stops loading with its error; otherwise the configuration's
    /// constructor runs once, with a new context over the sources, and what
    /// it returns ends loading as [`Loaded::conclude`] says: its error as it
    /// is, or its value as the loaded configuration, whose issues are those
    /// of the dotenv files and every issue its reads recorded.
    pub fn load_from<C: EnvConfig>(self, environment: Option<ProcessEnvSource>, dotenv: Vec<DotenvInput>) -> (r: Result<Loaded<C>, ConfigError>)
        ensures
            dotenv_stage(dotenv_inputs_view(dotenv@)) matches Err(e) ==> (r matches Err(x) && x@ == e),
            dotenv_stage(dotenv_inputs_view(dotenv@)) matches Ok((dsources, dissues)) ==> (r matches Ok(loaded) ==> {
                &&& slots_fit(
                    loaded.slots(),
                    source_plan(
                        self.explicit(),
                        self.custom_slots(),
                        if self.includes_process() {
                            environment_view(environment)
                        } else {
                            None
                        },
                        dsources,
                    ),
                )
                &&& loaded.audit_prefix() == self.prefix_view()
                &&& exists|session_issues: Seq<IssueView>| #[trigger] reported_once(loaded.load_issues_view(), dissues, session_issues)
            }),
            dotenv_stage(dotenv_inputs_view(dotenv@)) matches Ok((dsources, dissues)) ==> exists|context: &mut ConfigContext, outcome: Result<C, ConfigError>|
                starts_construction(
                    *context,
                    source_plan(
                        self.explicit(),
                        self.custom_slots(),
                        if self.includes_process() {
                            environment_view(environment)
                        } else {
                            None
                        },
                        dsources,
                    ),
                    self.prefix_view(),
                )
                    && #[trigger] call_ensures(C::from_env, (context,), outcome)
                    && concluded(outcome, r, dissues, (*final(context)).session_view().issues),
    {
        proof {
            use_type_invariant(&self);
        }
        let ghost explicit_log = self.explicit();
        let ghost customs_plan = self.custom_slots();
        let ghost includes = self.includes_process();
        let ghost prefix_view = self.prefix_view();
        let ghost inputs = dotenv_inputs_view(dotenv@);
        let ghost process_plan: Option<ProcessEnvView> = if includes {
            environment_view(environment)
        } else {
            None
        };
        let Loader {
            explicit_values,
            custom_sources,
            dotenv_files: _,
            include_process_environment,
            prefix,
            reporter,
        } = self;
        reporter.report(
            &Event {
                level: Level::Info,
                kind: EventKind::LoadStarted,
                field: None,
                key: None,
                source: None,
                message: "configuration loading started",
            },
        );
        let mut sources: Vec<SourceSlot> = Vec::new();
        let mut initial_issues: Vec<MaterializationIssue> = Vec::new();
        let ghost e_plan: Seq<SlotPlan> = if explicit_log.len() > 0 {
            seq![SlotPlan::Explicit(explicit_entries(explicit_log))]
        } else {
            seq![]
        };
        if explicit_values.len() > 0 {
            let explicit = build_explicit(&explicit_values);
            sources.push(SourceSlot::Explicit(explicit));
        }
        assert(slots_fit(sources@, e_plan));
        let ghost c_plan = customs_plan.map_values(|slot: SourceSlot| SlotPlan::Custom(slot));
        let ghost before_custom = sources@;
        assert(custom_sources@ == customs_plan);
        assert(before_custom.len() == e_plan.len());
        let mut customs = custom_sources;
        sources.append(&mut customs);
        assert(sources@ == before_custom + customs_plan);
        assert(slots_fit(sources@, e_plan + c_plan)) by {
            assert forall|i: int| 0 <= i < sources@.len() implies slot_fits(#[trigger] sources@[i], (e_plan + c_plan)[i]) by {
                if i >= before_custom.len() {
                    let j = i - before_custom.len();
                    assert(sources@[i] == customs_plan[j]);
                    assert(customs_plan[j] is Custom);
                    assert((e_plan + c_plan)[i] == c_plan[j]);
                    assert(c_plan[j] == SlotPlan::Custom(customs_plan[j]));
                } else {
                    assert((e_plan + c_plan)[i] == e_plan[i]);
                    assert(sources@[i] == before_custom[i]);
                }
            }
        }
        let ghost p_plan: Seq<SlotPlan> = match process_plan {
            Some(v) => seq![SlotPlan::Process(v)],
            None => seq![],
        };
        if include_process_environment {
            match environment {
                Some(p) => {
                    sources.push(SourceSlot::Process(p));
                },
                None => {},
            }
        }
        let ghost base = e_plan + c_plan + p_plan;
        assert(slots_fit(sources@, base)) by {
            assert forall|i: int| 0 <= i < sources@.len() implies slot_fits(#[trigger] sources@[i], base[i]) by {
                if i < (e_plan + c_plan).len() {
                    assert(base[i] == (e_plan + c_plan)[i]);
                }
            }
        }
        let mut i: usize = 0;
        let ghost mut dsources: Seq<(Seq<char>, Pairs)> = seq![];
        assert(inputs.take(0) =~= Seq::<DotenvInputView>::empty());
        assert(issues_view(initial_issues@) =~= Seq::<IssueView>::empty());
        assert(base + dsources.map_values(|s: (Seq<char>, Pairs)| SlotPlan::Dotenv(s.0, s.1)) =~= base);
        while i < dotenv.len()
            invariant
                i <= dotenv@.len(),
                inputs == dotenv_inputs_view(dotenv@),
                dotenv_stage(inputs.take(i as int)) == Ok::<(Seq<(Seq<char>, Pairs)>, Seq<IssueView>), ConfigErrorView>((dsources, issues_view(initial_issues@))),
                slots_fit(sources@, base + dsources.map_values(|s: (Seq<char>, Pairs)| SlotPlan::Dotenv(s.0, s.1))),
            decreases dotenv@.len() - i,
        {
            let ghost now = inputs.take(i + 1);
            assert(now.drop_last() =~= inputs.take(i as int));
            assert(now.last() == dotenv_input_view(dotenv@[i as int]));
            let ghost before_sources = sources@;
            let ghost before_issues = issues_view(initial_issues@);
            let ghost before_plan = base + dsources.map_values(|s: (Seq<char>, Pairs)| SlotPlan::Dotenv(s.0, s.1));
            match &dotenv[i] {
                DotenvInput::Absent => {},
                DotenvInput::Unreadable { name, message } => {
                    let error = ConfigError::io(name.as_str(), message.as_str());
                    reporter.report(
                        &Event {
                            level: Level::Error,
                            kind: EventKind::Issue,
                            field: None,
                            key: None,
                            source: error.source_name(),
                            message: error.safe_log_message(),
                        },
                    );
                    proof {
                        lemma_stage_error_persists(inputs, (i + 1) as nat);
                    }
                    return Err(error);
                },
                DotenvInput::Contents { name, text } => {
                    match ParsedDotenv::from_text(name.as_str(), text.as_str()) {
                        Err(error) => {
                            reporter.report(
                                &Event {
                                    level: Level::Error,
                                    kind: EventKind::Issue,
                                    field: None,
                                    key: error.key(),
                                    source: error.source_name(),
                                    message: error.safe_log_message(),
                                },
                            );
                            proof {
                                lemma_stage_error_persists(inputs, (i + 1) as nat);
                            }
                            return Err(error);
                        },
                        Ok(parsed) => {
                            let ParsedDotenv { source, duplicate_keys } = parsed;
                            let ghost dups = strings_view(duplicate_keys@);
                            let mut k: usize = 0;
                            while k < duplicate_keys.len()
                                invariant
                                    k <= duplicate_keys@.len(),
                                    dups == strings_view(duplicate_keys@),
                                    issues_view(initial_issues@) == before_issues + dups.take(k as int).map_values(|d: Seq<char>| duplicate_in_source_issue(d, name@)),
                                decreases duplicate_keys@.len() - k,
                            {
                                let ghost prev = issues_view(initial_issues@);
                                let issue = MaterializationIssue::duplicate_in_source(duplicate_keys[k].as_str(), name.as_str());
                                initial_issues.push(issue);
                                assert(issues_view(initial_issues@) =~= prev.push(duplicate_in_source_issue(dups[k as int], name@)));
                                k = k + 1;
                                assert(issues_view(initial_issues@) =~= before_issues + dups.take(k as int).map_values(|d: Seq<char>| duplicate_in_source_issue(d, name@))) by {
                                    assert(dups.take(k as int).map_values(|d: Seq<char>| duplicate_in_source_issue(d, name@)) =~= dups.take(k - 1).map_values(|d: Seq<char>| duplicate_in_source_issue(d, name@)).push(duplicate_in_source_issue(dups[k - 1], name@)));
                                }
                            }
                            assert(dups.take(k as int) =~= dups);
                            reporter.report(
                                &Event {
                                    level: Level::Info,
                                    kind: EventKind::DotenvLoaded,
                                    field: None,
                                    key: None,
                                    source: Some(name.as_str()),
                                    message: "dotenv file loaded",
                                },
                            );
                            let ghost entry = (source@.name, source@.values);
                            sources.push(SourceSlot::Dotenv(source));
                            proof {
                                let old_d = dsources;
                                dsources = dsources.push(entry);
                                let plan = base + dsources.map_values(|s: (Seq<char>, Pairs)| SlotPlan::Dotenv(s.0, s.1));
                                assert(plan =~= before_plan.push(SlotPlan::Dotenv(entry.0, entry.1)));
                                assert forall|j: int| 0 <= j < sources@.len() implies slot_fits(#[trigger] sources@[j], plan[j]) by {
                                    if j < before_sources.len() {
                                        assert(sources@[j] == before_sources[j]);
                                    }
                                }
                            }
                        },
                    }
                },
            }
            i = i + 1;
        }
        assert(inputs.take(i as int) =~= inputs);
        let ghost plan = source_plan(explicit_log, customs_plan, process_plan, dsources);
        assert(plan =~= base + dsources.map_values(|s: (Seq<char>, Pairs)| SlotPlan::Dotenv(s.0, s.1)));
        assert(slots_fit(sources@, plan));
        let runtime = Arc::new(Runtime::new(sources, reporter, prefix));
        assert(slots_fit((*runtime).slots(), plan));
        let shared = runtime.clone();
        assert(shared == runtime);
        let ran = ConfigContext::construct::<C>(shared);
        let ghost context = choose|c: &mut ConfigContext|
            (*c).session_view() == (SessionView { cache: seq![], issues: seq![] })
                && (*c).runtime_value() == runtime
                && (*c).slots() == runtime.slots()
                && issues_view(ran.1@) == (*final(c)).session_view().issues
                && #[trigger] call_ensures(C::from_env, (c,), ran.0);
        let ghost found = ran.0;
        let (outcome, session_issues) = ran;
        assert(outcome == found);
        let ghost si = issues_view(session_issues@);
        let ghost di = issues_view(initial_issues@);
        let ghost o = outcome;
        let r = Loaded::conclude(runtime, outcome, initial_issues, session_issues);
        let ghost gr = r;
        proof {
            assert(dotenv_stage(inputs) == Ok::<(Seq<(Seq<char>, Pairs)>, Seq<IssueView>), ConfigErrorView>((dsources, di)));
            match gr {
                Ok(loaded) => {
                    assert(slots_fit(loaded.slots(), plan));
                    assert(reported_once(loaded.load_issues_view(), di, si));
                    assert(dotenv_stage(dotenv_inputs_view(dotenv@)) matches Ok((a, b)) ==> b == di);
                    assert(dotenv_stage(dotenv_inputs_view(dotenv@)) matches Ok((a, b)) ==> exists|s: Seq<IssueView>| #[trigger] reported_once(loaded.load_issues_view(), b, s));
                },
                Err(_) => {},
            }
            assert(concluded(o, gr, di, si));
            assert(inputs == dotenv_inputs_view(dotenv@));
            assert(dotenv_stage(dotenv_inputs_view(dotenv@)) matches Ok((a, b)) ==> b == di);
            assert(starts_construction(*context, plan, prefix_view));
            assert(si == (*final(context)).session_view().issues);
            assert(call_ensures(C::from_env, (context,), o));
        }
        r
    }
}

proof fn lemma_stage_error_persists(inputs: Seq<DotenvInputView>, n: nat)
    requires
        n <= inputs.len(),
        dotenv_stage(inputs.take(n as int)) is Err,
    ensures
        dotenv_stage(inputs) == dotenv_stage(inputs.take(n as int)),
    decreases inputs.len() - n,
{
    if n < inputs.len() {
        assert(inputs.take((n + 1) as int).drop_last() =~= inputs.take(n as int));
        lemma_stage_error_persists(inputs, n + 1);
    } else {
        assert(inputs.take(n as int) =~= inputs);
    }
}

/// The explicit source: each value set, upper-cased, in order.
fn build_explicit(log: &Vec<(String, String)>) -> (m: MapSource)
    ensures
        m@.name == "explicit"@,
        m@.values == explicit_entries(pairs_view(log@)),
{
    let ghost all = pairs_view(log@);
    let mut m = MapSource::new("explicit");
    let mut i: usize = 0;
    assert(all.take(0) =~= Seq::<(Seq<char>, Seq<char>)>::empty());
    while i < log.len()
        invariant
            i <= log@.len(),
            all == pairs_view(log@),
            m@.name == "explicit"@,
            m@.values == explicit_entries(all.take(i as int)),
        decreases log@.len() - i,
    {
        m.insert(log[i].0.as_str(), log[i].1.as_str());
        i = i + 1;
        assert(all.take(i as int).drop_last() =~= all.take(i - 1));
    }
    assert(all.take(i as int) =~= all);
    m
}

/// A loaded configuration plus the runtime needed by deferred fields and snapshots.
pub struct Loaded<C> {
    config: C,
    runtime: Arc<Runtime>,
    load_issues: Vec<MaterializationIssue>,
}

impl<C> Loaded<C> {
    /// Ends loading with what the configuration's constructor returned: a
    /// value becomes the loaded configuration over `runtime`, and the
    /// reporter hears that loading finished; an error is reported at error
    /// level and returned.
    pub fn conclude(
        runtime: Arc<Runtime>,
        outcome: Result<C, ConfigError>,
        dotenv_issues: Vec<MaterializationIssue>,
        field_issues: Vec<MaterializationIssue>,
    ) -> (r: Result<Loaded<C>, ConfigError>)
        ensures
            concluded(outcome, r, issues_view(dotenv_issues@), issues_view(field_issues@)),
            r matches Ok(l) ==> l.slots() == runtime.slots() && l.audit_prefix() == runtime.audit_prefix(),
    {
        match outcome {
            Err(error) => {
                runtime.emit_error(&error);
                Err(error)
            },
            Ok(value) => {
                let ghost di = issues_view(dotenv_issues@);
                let ghost si = issues_view(field_issues@);
                let mut issues = dotenv_issues;
                let mut rest = field_issues;
                issues.append(&mut rest);
                assert(issues_view(issues@) =~= di + si);
                runtime.emit(
                    Event {
                        level: Level::Info,
                        kind: EventKind::LoadFinished,
                        field: None,
                        key: None,
                        source: None,
                        message: "configuration loading finished",
                    },
                );
                let report = MaterializationReport::new(issues);
                let load_issues = report.to_vec();
                Ok(Loaded { config: value, runtime, load_issues })
            },
        }
    }

    pub closed spec fn config_value(&self) -> C {
        self.config
    }

    pub closed spec fn slots(&self) -> Seq<SourceSlot> {
        (*self.runtime).slots()
    }

    pub closed spec fn audit_prefix(&self) -> Option<Seq<char>> {
        (*self.runtime).audit_prefix()
    }

    pub closed spec fn runtime_value(&self) -> Arc<Runtime> {
        self.runtime
    }

    pub closed spec fn load_issues_view(&self) -> Seq<IssueView> {
        issues_view(self.load_issues@)
    }

    pub fn value(&self) -> (c: &C)
        ensures
            *c == self.config_value(),
    {
        &self.config
    }

    pub fn into_inner(self) -> (c: C)
        ensures
            c == self.config_value(),
    {
        self.config
    }
}

/// The `{:?}` text of a value.
///
/// Wraps `format!("{:?}", ..)`, that is the value's `Debug` implementation;
/// nothing is claimed of the text.
#[verifier::external_body]
fn debug_text<D: std::fmt::Debug>(value: &D) -> String {
    format!("{value:?}")
}

impl<C: std::fmt::Debug> Loaded<C> {
    /// A debugging description: `Loaded { config: .., load_issues: .. }`,
    /// with the configuration and the load issues as `{:?}` writes them.
    pub fn debug_description(&self) -> (s: String)
        ensures
            exists|config: Seq<char>, issues: Seq<char>|
                s@ == #[trigger] loaded_description(config, issues),
    {
        let config = debug_text(&self.config);
        let issues = debug_text(&self.load_issues);
        let mut s = "Loaded { config: ".to_owned();
        push_str(&mut s, config.as_str());
        push_str(&mut s, ", load_issues: ");
        push_str(&mut s, issues.as_str());
        push_str(&mut s, " }");
        assert(s@ == loaded_description(config@, issues@));
        s
    }
}

pub open spec fn loaded_description(config: Seq<char>, issues: Seq<char>) -> Seq<char> {
    "Loaded { config: "@ + config + ", load_issues: "@ + issues + " }"@
}

impl<C> Deref for Loaded<C> {
    type Target = C;

    fn deref(&self) -> (c: &C)
        ensures
            *c == self.config_value(),
    {
        &self.config
    }
}

/// How a materialization ends: its report holds, each once, the issues of
/// loading, those of the session, and those of the audit of unknown variables
/// over the sources' listings; it is refused when the mode rejects that report.
pub open spec fn settled_from<T>(
    slots: Seq<SourceSlot>,
    prefix: Option<Seq<char>>,
    load_issues: Seq<IssueView>,
    mode: MaterializationMode,
    r: Result<Materialized<T>, MaterializationError>,
    session_issues: Seq<IssueView>,
    declared: Seq<Seq<char>>,
    reports: Seq<(Seq<char>, Option<Listing>)>,
    present: bool,
) -> bool {
    let all = load_issues + session_issues + audit(prefix, declared, reports);
    &&& reports_fit(slots, prefix, reports)
    &&& (r is Err <==> is_rejected(mode, final_report(present, all)))
    &&& match r {
        Ok(m) => present && m.report@ == final_report(true, all),
        Err(e) => e.report@ == final_report(present, all),
    }
}

/// The report of a materialization, refused or not.
pub open spec fn outcome_report<T>(r: Result<Materialized<T>, MaterializationError>) -> Seq<IssueView> {
    match r {
        Ok(m) => m.report@,
        Err(e) => e.report@,
    }
}

/// No issue is lost: every issue of loading, of the materialization's
/// session and of the audit stands in the report, and in Strict mode a
/// single one of them refuses the snapshot.
pub proof fn law_report_holds_every_issue<T>(
    slots: Seq<SourceSlot>,
    prefix: Option<Seq<char>>,
    load_issues: Seq<IssueView>,
    mode: MaterializationMode,
    r: Result<Materialized<T>, MaterializationError>,
    session_issues: Seq<IssueView>,
    declared: Seq<Seq<char>>,
    reports: Seq<(Seq<char>, Option<Listing>)>,
    present: bool,
)
    requires
        settled_from(slots, prefix, load_issues, mode, r, session_issues, declared, reports, present),
    ensures
        forall|x: IssueView| #[trigger] (load_issues + session_issues + audit(prefix, declared, reports)).contains(x)
            ==> outcome_report(r).contains(x),
        mode == MaterializationMode::Strict && session_issues.len() > 0 ==> r is Err,
{
    let all = load_issues + session_issues + audit(prefix, declared, reports);
    let collected = collected_issues(present, all);
    law_dedup_keeps_each_issue_once(collected);
    assert forall|x: IssueView| #[trigger] all.contains(x) implies outcome_report(r).contains(x) by {
        let i = choose|i: int| 0 <= i < all.len() && all[i] == x;
        assert(collected[i] == x);
        assert(collected.contains(x));
        assert(dedup(collected).contains(x));
        assert(outcome_report(r) == final_report(present, all));
    }
    if mode == MaterializationMode::Strict && session_issues.len() > 0 {
        let x = session_issues[0];
        assert(all[load_issues.len() as int] == x);
        assert(collected[load_issues.len() as int] == x);
        assert(collected.contains(x));
        assert(dedup(collected).contains(x));
        assert(final_report(present, all).len() > 0);
    }
}

impl<C: Materialize> Loaded<C> {
    /// Evaluates every deferred field once, in one shared session, and creates
    /// a typed snapshot with its report.
    ///
    /// The configuration's own `materialize` runs once, with a context over a
    /// new session of this loader; the snapshot's value is what it returned.
    /// The report holds, each once, the issues of loading, every issue that
    /// session recorded, and those of the audit of unknown variables. It is
    /// rejected when it holds an error, or in Strict mode when it holds
    /// anything.
    pub fn materialize(&self, mode: MaterializationMode) -> (r: Result<Materialized<C::Output>, MaterializationError>)
        ensures
            exists|context: &mut MaterializationContext<'_>, value: Option<C::Output>, declared: Seq<Seq<char>>, reports: Seq<(Seq<char>, Option<Listing>)>|
                starts_fresh(*context, self.runtime_value())
                    && #[trigger] call_ensures(C::materialize, (&self.config_value(), context), value)
                    && #[trigger] settled_from(self.slots(), self.audit_prefix(), self.load_issues_view(), mode, r,
                        (*final(context)).session_view().issues, declared, reports, value is Some)
                    && (r matches Ok(m) ==> value == Some(m.value)),
    {
        self.runtime.emit(
            Event {
                level: Level::Info,
                kind: EventKind::MaterializationStarted,
                field: None,
                key: None,
                source: None,
                message: "[+] Configuration materialization started",
            },
        );
        let runtime = self.runtime.clone();
        assert(runtime == self.runtime_value());
        let ran = run_materialize(&self.config, runtime);
        let ghost context = choose|c: &mut MaterializationContext<'_>|
            starts_fresh(*c, self.runtime_value())
                && issues_view(ran.1@) == (*final(c)).session_view().issues
                && #[trigger] call_ensures(C::materialize, (&self.config_value(), c), ran.0);
        let ghost found = ran.0;
        let (value, mut session_issues) = ran;
        assert(value == found);
        let ghost present = value is Some;
        let mut issues: Vec<MaterializationIssue> = Vec::new();
        let ghost li = self.load_issues_view();
        let mut k: usize = 0;
        while k < self.load_issues.len()
            invariant
                k <= self.load_issues@.len(),
                li == issues_view(self.load_issues@),
                issues@.len() == k,
                forall|m: int| 0 <= m < k ==> (#[trigger] issues@[m])@ == self.load_issues@[m]@,
            decreases self.load_issues@.len() - k,
        {
            issues.push(self.load_issues[k].copy());
            k = k + 1;
        }
        assert(issues_view(issues@) =~= li);
        let ghost si = issues_view(session_issues@);
        issues.append(&mut session_issues);
        assert(issues_view(issues@) =~= li + si);
        let mut unknown = self.runtime.unknown_variable_issues();
        let ghost ui = issues_view(unknown@);
        issues.append(&mut unknown);
        assert(issues_view(issues@) =~= li + si + ui);
        let ghost (declared, reports) = choose|declared: Seq<Seq<char>>, reports: Seq<(Seq<char>, Option<Listing>)>|
            reports_fit(self.slots(), self.audit_prefix(), reports) && ui == #[trigger] audit(self.audit_prefix(), declared, reports);
        let result = settle(value, issues, mode);
        assert(settled_from(self.slots(), self.audit_prefix(), li, mode, result, si, declared, reports, present));
        assert(si == (*final(context)).session_view().issues);
        assert(call_ensures(C::materialize, (&self.config_value(), context), found));
        match &result {
            Ok(m) => {
                log_report(&self.runtime, mode, &m.report);
            },
            Err(e) => {
                log_report(&self.runtime, mode, &e.report);
            },
        }
        match &result {
            Ok(_) => self.runtime.emit(
                Event {
                    level: Level::Info,
                    kind: EventKind::MaterializationFinished,
                    field: None,
                    key: None,
                    source: None,
                    message: "[+] Configuration materialization finished",
                },
            ),
            Err(_) => self.runtime.emit(
                Event {
                    level: Level::Error,
                    kind: EventKind::MaterializationFinished,
                    field: None,
                    key: None,
                    source: None,
                    message: "[!!] Configuration materialization failed",
                },
            ),
        }
        result
    }
}

/// Hands the reporter one event for every issue the mode reports, at the
/// mode's level, in report order, and returns those events.
fn log_report<'a>(runtime: &Runtime, mode: MaterializationMode, report: &'a MaterializationReport) -> (v: Vec<Event<'a>>)
    ensures
        events_view(v@) == report_events(mode, report@),
{
    let events = issue_events(mode, report.issues());
    let mut i: usize = 0;
    while i < events.len()
        decreases events@.len() - i,
    {
        runtime.emit(events[i]);
        i = i + 1;
    }
    events
}

} // verus!
