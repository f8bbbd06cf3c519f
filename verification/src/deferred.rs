//! Deferred source-backed and function-backed fields.

use std::marker::PhantomData;
use std::str::FromStr;
use std::sync::Arc;

use vstd::prelude::*;

use crate::error::{internal_error, ConfigError, ConfigErrorView};
use crate::reporter::{Event, EventKind, Level};
use crate::resolver::{
    optional_fits, raw_of, session_read, typed_fits, ReadKind, ResolveSession, Runtime,
    SessionView, SourceSlot,
};
use crate::source::dotenv::valid_key;

verus! {

pub open spec fn foreign_runtime_message() -> Seq<char> {
    "a deferred field was materialized by a different Loader instance"@
}

/// Whether two handles point to the same runtime allocation.
///
/// Wraps `Arc::ptr_eq`: `true` means one allocation, hence one value.
#[verifier::external_body]
fn same_runtime(a: &Arc<Runtime>, b: &Arc<Runtime>) -> (r: bool)
    ensures
        r ==> *a == *b,
{
    Arc::ptr_eq(a, b)
}

/// Fails unless `session` belongs to `runtime`.
fn ensure_same_runtime(session: &ResolveSession, runtime: &Arc<Runtime>) -> (r: Result<(), ConfigError>)
    ensures
        r is Ok ==> session.runtime_value() == *runtime,
        r matches Err(e) ==> e@ == internal_error(foreign_runtime_message()),
{
    let own = session.runtime();
    if same_runtime(&own, runtime) {
        Ok(())
    } else {
        Err(ConfigError::internal("a deferred field was materialized by a different Loader instance"))
    }
}

/// A deferred read of a required variable resolved in `old` gave `r` and left
/// the session in `new`: it was refused because the session belongs to
/// another loader, or it is a session read with its typed outcome.
pub open spec fn lazy_resolved<T: FromStr>(
    key: Seq<char>,
    same: bool,
    slots: Seq<SourceSlot>,
    old: SessionView,
    new: SessionView,
    r: Result<T, ConfigError>,
) -> bool {
    ||| (r matches Err(e) && e@ == internal_error(foreign_runtime_message()) && new == old)
    ||| (same && session_read(slots, old, new, key, ReadKind::Required) && typed_fits(key, raw_of(new, key), r))
}

/// The same for an optional variable.
pub open spec fn lazy_optional_resolved<T: FromStr>(
    key: Seq<char>,
    same: bool,
    slots: Seq<SourceSlot>,
    old: SessionView,
    new: SessionView,
    r: Result<Option<T>, ConfigError>,
) -> bool {
    ||| (r matches Err(e) && e@ == internal_error(foreign_runtime_message()) && new == old)
    ||| (same && session_read(slots, old, new, key, ReadKind::Optional) && optional_fits(key, raw_of(new, key), r))
}

pub open spec fn fresh_session() -> SessionView {
    SessionView { cache: seq![], issues: seq![] }
}

/// A computed field run with `session`, whose view went from `before` to
/// `after`, gave `r`: it was refused because the session belongs to another
/// loader, leaving it as it was, or its closure, run with `session`, gave
/// `r` and left the session as it ended.
pub open spec fn computed_resolved<T: 'static>(
    value: &Computed<T>,
    same: bool,
    session: &mut ResolveSession,
    before: SessionView,
    after: SessionView,
    r: Result<T, ConfigError>,
) -> bool {
    ||| (r matches Err(e) && e@ == internal_error(foreign_runtime_message()) && after == before)
    ||| (same && value.computes(session, r))
}

/// A required variable that is looked up and parsed on every [`Lazy::get`].
pub struct Lazy<T> {
    key: String,
    runtime: Arc<Runtime>,
    marker: PhantomData<T>,
}

impl<T> Lazy<T> {
    #[verifier::type_invariant]
    closed spec fn wf(&self) -> bool {
        valid_key(self.key@)
    }

    pub closed spec fn key(&self) -> Seq<char> {
        self.key@
    }

    pub closed spec fn runtime_value(&self) -> Arc<Runtime> {
        self.runtime
    }

    pub(crate) fn new(key: &str, runtime: Arc<Runtime>) -> (l: Self)
        requires
            valid_key(key@),
        ensures
            l.key() == key@,
            l.runtime_value() == runtime,
    {
        Lazy { key: key.to_owned(), runtime, marker: PhantomData }
    }
}

impl<T: FromStr> Lazy<T> {
    /// Looks the variable up in a fresh session and parses it.
    pub fn get(&self) -> (r: Result<T, ConfigError>)
        ensures
            exists|s: SessionView| session_read(self.runtime_value().slots(), fresh_session(), s, self.key(), ReadKind::Required)
                && #[trigger] typed_fits(self.key(), raw_of(s, self.key()), r),
    {
        proof {
            use_type_invariant(self);
        }
        let mut session = ResolveSession::new(self.runtime.clone());
        assert(session@ == fresh_session());
        let r = session.get(self.key.as_str());
        assert(typed_fits(self.key(), raw_of(session@, self.key()), r));
        r
    }

    /// Resolves the variable within `session`, which must belong to the same
    /// loader.
    pub fn resolve_in(&self, session: &mut ResolveSession) -> (r: Result<T, ConfigError>)
        ensures
            final(session).runtime_value() == old(session).runtime_value(),
            lazy_resolved(self.key(), old(session).runtime_value() == self.runtime_value(), old(session).slots(), old(session)@, final(session)@, r),
    {
        proof {
            use_type_invariant(self);
        }
        if let Err(e) = ensure_same_runtime(session, &self.runtime) {
            return Err(e);
        }
        session.get(self.key.as_str())
    }
}

/// An optional variable looked up and parsed on every call.
pub struct LazyOptional<T> {
    key: String,
    runtime: Arc<Runtime>,
    marker: PhantomData<T>,
}

impl<T> LazyOptional<T> {
    #[verifier::type_invariant]
    closed spec fn wf(&self) -> bool {
        valid_key(self.key@)
    }

    pub closed spec fn key(&self) -> Seq<char> {
        self.key@
    }

    pub closed spec fn runtime_value(&self) -> Arc<Runtime> {
        self.runtime
    }

    pub(crate) fn new(key: &str, runtime: Arc<Runtime>) -> (l: Self)
        requires
            valid_key(key@),
        ensures
            l.key() == key@,
            l.runtime_value() == runtime,
    {
        LazyOptional { key: key.to_owned(), runtime, marker: PhantomData }
    }
}

impl<T: FromStr> LazyOptional<T> {
    /// Looks the variable up in a fresh session; `None` when it is absent.
    pub fn lazy_get_optional(&self) -> (r: Result<Option<T>, ConfigError>)
        ensures
            exists|s: SessionView| session_read(self.runtime_value().slots(), fresh_session(), s, self.key(), ReadKind::Optional)
                && #[trigger] optional_fits(self.key(), raw_of(s, self.key()), r),
    {
        proof {
            use_type_invariant(self);
        }
        let mut session = ResolveSession::new(self.runtime.clone());
        assert(session@ == fresh_session());
        let r = session.get_optional(self.key.as_str());
        assert(optional_fits(self.key(), raw_of(session@, self.key()), r));
        r
    }

    pub fn resolve_in(&self, session: &mut ResolveSession) -> (r: Result<Option<T>, ConfigError>)
        ensures
            final(session).runtime_value() == old(session).runtime_value(),
            lazy_optional_resolved(self.key(), old(session).runtime_value() == self.runtime_value(), old(session).slots(), old(session)@, final(session)@, r),
    {
        proof {
            use_type_invariant(self);
        }
        if let Err(e) = ensure_same_runtime(session, &self.runtime) {
            return Err(e);
        }
        session.get_optional(self.key.as_str())
    }
}

/// Whether `f` may be called on every session.
pub open spec fn closure_callable<T, F: Fn(&mut ResolveSession) -> Result<T, ConfigError>>(f: F) -> bool {
    forall|s: &mut ResolveSession| #[trigger] call_requires(f, (s,))
}

/// Whether `f`, called with `session`, can give `r` and leave the session
/// as the reference ends.
pub open spec fn closure_gives<T, F: Fn(&mut ResolveSession) -> Result<T, ConfigError>>(
    f: F,
    session: &mut ResolveSession,
    r: Result<T, ConfigError>,
) -> bool {
    call_ensures(f, (session,), r)
}

/// A computation of a value from a resolve session, as a computed field runs it.
pub trait Compute<T>: Send + Sync {
    /// Whether the computation may run on every session.
    spec fn callable(&self) -> bool;

    /// Whether this computation, run with `session`, can give `r` and leave
    /// the session as the reference ends.
    spec fn gives(&self, session: &mut ResolveSession, r: Result<T, ConfigError>) -> bool;

    fn compute(&self, session: &mut ResolveSession) -> (r: Result<T, ConfigError>)
        requires
            self.callable(),
        ensures
            exists|s: &mut ResolveSession| *s == *old(session) && *final(s) == *final(session) && #[trigger] self.gives(s, r),
    ;
}

/// Runs the user's closure of a computed field.
///
/// Calls the closure, which must accept the session, and returns what it
/// returns: the result, with the session as the closure left it, is one the
/// closure can give when called with that session. Nothing more is claimed
/// of what the closure does.
#[verifier::external_body]
fn call_compute_closure<T, F: Fn(&mut ResolveSession) -> Result<T, ConfigError>>(
    function: &F,
    session: &mut ResolveSession,
) -> (r: Result<T, ConfigError>)
    requires
        call_requires(*function, (old(session),)),
    ensures
        call_ensures(*function, (old(session),), r),
{
    function(session)
}

/// A closure as a computation.
pub struct ComputeFn<F> {
    function: F,
}

impl<T, F: Fn(&mut ResolveSession) -> Result<T, ConfigError> + Send + Sync> Compute<T> for ComputeFn<F> {
    closed spec fn callable(&self) -> bool {
        closure_callable(self.function)
    }

    closed spec fn gives(&self, session: &mut ResolveSession, r: Result<T, ConfigError>) -> bool {
        closure_gives(self.function, session, r)
    }

    fn compute(&self, session: &mut ResolveSession) -> (r: Result<T, ConfigError>) {
        let ghost before = *session;
        let r = call_compute_closure(&self.function, session);
        proof {
            let c = choose|s: &mut ResolveSession| *s == before && *final(s) == *session && call_ensures(self.function, (s,), r);
            assert(self.gives(c, r));
        }
        r
    }
}

/// Boxes a closure as a computation.
///
/// Wraps `Box::new` and the coercion to a trait object: the boxed computation
/// is the closure's, so it may run exactly where the closure may be called,
/// and gives exactly the results the closure gives.
#[verifier::external_body]
fn boxed_computation<T: 'static, F: Fn(&mut ResolveSession) -> Result<T, ConfigError> + Send + Sync + 'static>(
    function: F,
) -> (b: ComputeBox<T>)
    ensures
        b.inner.callable() == closure_callable(function),
        forall|s: &mut ResolveSession, r: Result<T, ConfigError>| #[trigger] b.inner.gives(s, r) == closure_gives(function, s, r),
{
    ComputeBox { inner: Box::new(ComputeFn { function }) }
}

/// A computation behind a trait object.
#[verifier::reject_recursive_types(T)]
struct ComputeBox<T> {
    inner: Box<dyn Compute<T>>,
}

/// A function-backed field whose closure runs on every [`Computed::get`].
#[verifier::reject_recursive_types(T)]
pub struct Computed<T> {
    name: String,
    runtime: Arc<Runtime>,
    function: ComputeBox<T>,
}

impl<T: 'static> Computed<T> {
    pub closed spec fn name(&self) -> Seq<char> {
        self.name@
    }

    pub closed spec fn runtime_value(&self) -> Arc<Runtime> {
        self.runtime
    }

    #[verifier::type_invariant]
    closed spec fn wf(&self) -> bool {
        self.function.inner.callable()
    }

    pub(crate) fn new<F: Fn(&mut ResolveSession) -> Result<T, ConfigError> + Send + Sync + 'static>(
        name: &str,
        runtime: Arc<Runtime>,
        function: F,
    ) -> (c: Self)
        requires
            closure_callable(function),
        ensures
            c.name() == name@,
            c.runtime_value() == runtime,
            forall|s: &mut ResolveSession, r: Result<T, ConfigError>| #[trigger] c.computes(s, r) == closure_gives(function, s, r),
    {
        let boxed = boxed_computation(function);
        let c = Computed { name: name.to_owned(), runtime, function: boxed };
        assert(c.function.inner.callable());
        c
    }

    /// Whether this field's computation, its closure, run with `session`,
    /// can give `r` and leave the session as the reference ends.
    pub closed spec fn computes(&self, session: &mut ResolveSession, r: Result<T, ConfigError>) -> bool {
        self.function.inner.gives(session, r)
    }

    /// Runs the closure with a fresh session of this field's loader and
    /// returns what it returns.
    pub fn get(&self) -> (r: Result<T, ConfigError>)
        ensures
            exists|s: &mut ResolveSession|
                (*s)@ == fresh_session() && (*s).runtime_value() == self.runtime_value() && #[trigger] self.computes(s, r),
    {
        let mut session = ResolveSession::new(self.runtime.clone());
        assert(session@ == fresh_session());
        let r = self.run(&mut session);
        r
    }

    /// Runs the closure with `session`, which must belong to the same loader,
    /// and returns what the closure returns.
    pub fn resolve_in(&self, session: &mut ResolveSession) -> (r: Result<T, ConfigError>)
        ensures
            exists|s: &mut ResolveSession| *s == *old(session) && *final(s) == *final(session)
                && computed_resolved(self, old(session).runtime_value() == self.runtime_value(), s, (*s)@, (*final(s))@, r),
    {
        if let Err(e) = ensure_same_runtime(session, &self.runtime) {
            let r = Err(e);
            proof {
                let s = old(session);
                assert(*final(s) == *final(session));
                assert(computed_resolved(self, old(session).runtime_value() == self.runtime_value(), s, (*s)@, (*final(s))@, r));
            }
            return r;
        }
        let ghost before = *session;
        let r = self.run(session);
        proof {
            let c = choose|s: &mut ResolveSession| *s == before && *final(s) == *session && #[trigger] self.computes(s, r);
            assert(computed_resolved(self, old(session).runtime_value() == self.runtime_value(), c, (*c)@, (*final(c))@, r));
        }
        r
    }

    /// Runs the closure on `session`, reporting its start and end.
    fn run(&self, session: &mut ResolveSession) -> (r: Result<T, ConfigError>)
        ensures
            exists|s: &mut ResolveSession| *s == *old(session) && *final(s) == *final(session) && #[trigger] self.computes(s, r),
    {
        proof {
            use_type_invariant(self);
        }
        self.runtime.emit(
            Event {
                level: Level::Trace,
                kind: EventKind::ComputationStarted,
                field: Some(self.name.as_str()),
                key: None,
                source: None,
                message: "computed field evaluation started",
            },
        );
        let ghost before = *session;
        let result = self.function.inner.compute(session);
        proof {
            let c = choose|s: &mut ResolveSession| *s == before && *final(s) == *session && #[trigger] self.function.inner.gives(s, result);
            assert(self.computes(c, result));
        }
        match &result {
            Ok(_) => self.runtime.emit(
                Event {
                    level: Level::Debug,
                    kind: EventKind::ComputationFinished,
                    field: Some(self.name.as_str()),
                    key: None,
                    source: None,
                    message: "computed field evaluation finished",
                },
            ),
            Err(error) => self.runtime.emit(
                Event {
                    level: Level::Error,
                    kind: EventKind::ComputationFinished,
                    field: Some(self.name.as_str()),
                    key: error.key(),
                    source: error.source_name(),
                    message: error.safe_log_message(),
                },
            ),
        }
        result
    }
}

} // verus!
