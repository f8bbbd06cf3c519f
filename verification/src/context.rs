//! The interface that typed configuration constructors use.

use std::str::FromStr;
use std::sync::Arc;

use vstd::prelude::*;

use crate::deferred::{closure_callable, closure_gives, Computed, Lazy, LazyOptional};
use crate::error::{invalid_key_error, ConfigError};
use crate::materialize::{issues_view, MaterializationIssue};
use crate::resolver::{
    optional_fits, parsed_fits, raw_of, session_read, typed_fits, is_invalid_value_for, ReadKind,
    ResolveSession, Runtime, SessionView, SourceSlot,
};
use crate::source::dotenv::valid_key;

verus! {

/// Implemented by an application's strongly typed configuration structure.
pub trait EnvConfig: Sized {
    fn from_env(context: &mut ConfigContext) -> Result<Self, ConfigError>;
}

/// The context in which a configuration is constructed: one resolve session
/// shared by all eager fields.
pub struct ConfigContext {
    session: ResolveSession,
}

impl ConfigContext {
    pub closed spec fn session_view(&self) -> SessionView {
        self.session@
    }

    pub closed spec fn slots(&self) -> Seq<SourceSlot> {
        self.session.slots()
    }

    pub closed spec fn runtime_value(&self) -> Arc<Runtime> {
        self.session.runtime_value()
    }

    pub(crate) fn new(runtime: Arc<Runtime>) -> (c: Self)
        ensures
            c.session_view() == (SessionView { cache: seq![], issues: seq![] }),
            c.runtime_value() == runtime,
            c.slots() == runtime.slots(),
    {
        let c = ConfigContext { session: ResolveSession::new(runtime) };
        assert(c.session_view() =~= (SessionView { cache: seq![], issues: seq![] }));
        c
    }

    /// Reads and parses a required variable immediately.
    pub fn get<T: FromStr>(&mut self, key: &str) -> (r: Result<T, ConfigError>)
        ensures
            final(self).runtime_value() == old(self).runtime_value(),
            !valid_key(key@) ==> (r matches Err(e) && e@ == invalid_key_error(key@) && final(self).session_view() == old(self).session_view()),
            valid_key(key@) ==> session_read(old(self).slots(), old(self).session_view(), final(self).session_view(), key@, ReadKind::Required)
                && typed_fits(key@, raw_of(final(self).session_view(), key@), r),
    {
        self.session.get(key)
    }

    /// Reads an optional variable immediately.
    pub fn get_optional<T: FromStr>(&mut self, key: &str) -> (r: Result<Option<T>, ConfigError>)
        ensures
            final(self).runtime_value() == old(self).runtime_value(),
            !valid_key(key@) ==> (r matches Err(e) && e@ == invalid_key_error(key@) && final(self).session_view() == old(self).session_view()),
            valid_key(key@) ==> session_read(old(self).slots(), old(self).session_view(), final(self).session_view(), key@, ReadKind::Optional)
                && optional_fits(key@, raw_of(final(self).session_view(), key@), r),
    {
        self.session.get_optional(key)
    }

    /// Reads immediately, or uses the typed default when the key is absent.
    pub fn get_or<T: FromStr>(&mut self, key: &str, default: T) -> (r: Result<T, ConfigError>)
        ensures
            final(self).runtime_value() == old(self).runtime_value(),
            !valid_key(key@) ==> (r matches Err(e) && e@ == invalid_key_error(key@) && final(self).session_view() == old(self).session_view()),
            valid_key(key@) ==> session_read(old(self).slots(), old(self).session_view(), final(self).session_view(), key@, ReadKind::Defaulted)
                && match raw_of(final(self).session_view(), key@) {
                    Ok(None) => r == Ok::<T, ConfigError>(default),
                    Err(e) => r matches Err(x) && x@ == e,
                    Ok(Some(found)) => parsed_fits(key@, found.0, r),
                },
    {
        self.session.get_or(key, default)
    }

    /// Creates a required field whose lookup is deferred until `.get()`. The
    /// key is validated and registered now; no source is read.
    pub fn lazy_get<T: FromStr + 'static>(&mut self, key: &str) -> (r: Result<Lazy<T>, ConfigError>)
        ensures
            final(self).runtime_value() == old(self).runtime_value(),
            final(self).session_view() == old(self).session_view(),
            r is Ok <==> valid_key(key@),
            r matches Ok(l) ==> l.key() == key@ && l.runtime_value() == old(self).runtime_value(),
            r matches Err(e) ==> e@ == invalid_key_error(key@),
    {
        if let Err(e) = self.session.register_deferred_key(key) {
            return Err(e);
        }
        Ok(Lazy::new(key, self.session.runtime()))
    }

    /// Creates an optional field whose lookup is deferred until `.get()`.
    pub fn lazy_get_optional<T: FromStr + 'static>(&mut self, key: &str) -> (r: Result<LazyOptional<T>, ConfigError>)
        ensures
            final(self).runtime_value() == old(self).runtime_value(),
            final(self).session_view() == old(self).session_view(),
            r is Ok <==> valid_key(key@),
            r matches Ok(l) ==> l.key() == key@ && l.runtime_value() == old(self).runtime_value(),
            r matches Err(e) ==> e@ == invalid_key_error(key@),
    {
        if let Err(e) = self.session.register_deferred_key(key) {
            return Err(e);
        }
        Ok(LazyOptional::new(key, self.session.runtime()))
    }

    /// Creates a closure-backed field. The closure is not run here: it runs on
    /// every `Computed::get`, or once per materialization.
    pub fn get_computed<T: 'static, F: Fn(&mut ResolveSession) -> Result<T, ConfigError> + Send + Sync + 'static>(
        &mut self,
        name: &str,
        function: F,
    ) -> (c: Computed<T>)
        requires
            closure_callable(function),
        ensures
            final(self).runtime_value() == old(self).runtime_value(),
            final(self).session_view() == old(self).session_view(),
            c.name() == name@,
            c.runtime_value() == old(self).runtime_value(),
            forall|s: &mut ResolveSession, r: Result<T, ConfigError>| #[trigger] c.computes(s, r) == closure_gives(function, s, r),
    {
        Computed::new(name, self.session.runtime(), function)
    }

    /// Constructs `C` through its own constructor in a new context over
    /// `runtime`, and returns what it gave with the issues its reads recorded.
    pub(crate) fn construct<C: EnvConfig>(runtime: Arc<Runtime>) -> (r: (Result<C, ConfigError>, Vec<MaterializationIssue>))
        ensures
            exists|context: &mut ConfigContext|
                (*context).session_view() == (SessionView { cache: seq![], issues: seq![] })
                    && (*context).runtime_value() == runtime
                    && (*context).slots() == runtime.slots()
                    && issues_view(r.1@) == (*final(context)).session_view().issues
                    && #[trigger] call_ensures(C::from_env, (context,), r.0),
    {
        let mut context = ConfigContext::new(runtime);
        let step = C::from_env;
        let context_ref = &mut context;
        let ghost start = context_ref;
        let outcome = step(context_ref);
        let ghost after = context;
        let issues = context.finish();
        let ghost found = outcome;
        let r = (outcome, issues);
        assert(r.0 == found);
        assert(exists|c: &mut ConfigContext| call_ensures(C::from_env, (c,), r.0) && *c == *start && *final(c) == after);
        r
    }

    /// The issues recorded while the configuration was constructed.
    pub(crate) fn finish(self) -> (v: Vec<MaterializationIssue>)
        ensures
            issues_view(v@) == self.session_view().issues,
    {
        self.session.finish()
    }
}

} // verus!
