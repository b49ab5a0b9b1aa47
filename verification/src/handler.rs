//! User-supplied handlers and the wrapper that gives them a uniform call
//! surface over a decoded argument list.
use vstd::prelude::*;

use crate::scalar::ScalarValue;
use crate::service::{ArgList, HttpStatus};

verus! {

/// A callable a route can be registered with. Implementors receive the
/// decoded argument list and report an outcome; `spec_call` names the
/// outcome the implementor's `call` promises to return.
pub trait Factory {
    /// The outcome this handler returns for a given argument list.
    spec fn spec_call(&self, args: Seq<ScalarValue>) -> HttpStatus;

    /// Invokes the handler on a decoded argument list.
    fn call(&self, args: ArgList) -> (r: HttpStatus)
        ensures
            r == self.spec_call(args@),
    ;
}

/// A handler that ignores its arguments and always reports the same
/// outcome, whatever payload was decoded for it.
pub struct FixedOutcome {
    pub status: HttpStatus,
}

impl Factory for FixedOutcome {
    open spec fn spec_call(&self, args: Seq<ScalarValue>) -> HttpStatus {
        self.status
    }

    fn call(&self, _args: ArgList) -> HttpStatus {
        self.status
    }
}

/// Owns one handler callable.
pub struct Handler<F> {
    pub f: F,
}

impl<F: Factory> Handler<F> {
    /// Wraps a callable.
    pub fn new(f: F) -> (h: Handler<F>)
        ensures
            h == (Handler { f }),
    {
        Handler { f }
    }

    /// Invokes the stored callable with the decoded argument list and
    /// returns its result; no further validation happens at call time.
    pub fn call(&self, args: ArgList) -> (r: HttpStatus)
        ensures
            r == self.f.spec_call(args@),
    {
        self.f.call(args)
    }
}

} // verus!
