//! Structured, value-free diagnostic events and the reporter that receives them.

use vstd::prelude::*;

verus! {

/// Severity of an event.
#[derive(Debug, Clone, Copy, PartialEq, Eq, Hash, Structural)]
pub enum Level {
    Trace,
    Debug,
    Info,
    Warn,
    Error,
}

/// What happened.
#[derive(Debug, Clone, Copy, PartialEq, Eq, Hash, Structural)]
pub enum EventKind {
    LoadStarted,
    LoadFinished,
    DotenvLoaded,
    VariableLookup,
    VariableResolved,
    ComputationStarted,
    ComputationFinished,
    MaterializationStarted,
    MaterializationFinished,
    Issue,
}

/// A diagnostic event. It names fields, variables and sources, never values.
#[derive(Debug, Clone, Copy)]
pub struct Event<'a> {
    pub level: Level,
    pub kind: EventKind,
    pub field: Option<&'a str>,
    pub key: Option<&'a str>,
    pub source: Option<&'a str>,
    pub message: &'a str,
}

/// An event as values: its level, kind, field, variable, source and message.
pub struct EventView {
    pub level: Level,
    pub kind: EventKind,
    pub field: Option<Seq<char>>,
    pub key: Option<Seq<char>>,
    pub source: Option<Seq<char>>,
    pub message: Seq<char>,
}

pub open spec fn event_view(e: Event<'_>) -> EventView {
    EventView {
        level: e.level,
        kind: e.kind,
        field: crate::error::opt_str_view(e.field),
        key: crate::error::opt_str_view(e.key),
        source: crate::error::opt_str_view(e.source),
        message: e.message@,
    }
}

pub open spec fn events_view(v: Seq<Event<'_>>) -> Seq<EventView> {
    v.map_values(|e: Event<'_>| event_view(e))
}

/// Receives every event that loading and materialization emit.
pub trait Reporter: Send + Sync {
    fn report(&self, event: &Event<'_>);
}

/// Hands an event to a closure reporter.
///
/// Calls the user's closure; nothing is claimed of what it does.
#[verifier::external_body]
fn call_reporter_closure<F: Fn(&Event<'_>)>(function: &F, event: &Event<'_>) {
    function(event)
}

impl<F: Fn(&Event<'_>) + Send + Sync> Reporter for F {
    fn report(&self, event: &Event<'_>) {
        call_reporter_closure(self, event)
    }
}

/// The reporter that ignores every event.
#[derive(Debug, Clone, Copy, Default)]
pub struct NoopReporter;

impl Reporter for NoopReporter {
    fn report(&self, event: &Event<'_>) {
    }
}

} // verus!
