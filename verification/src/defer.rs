//! A guard that runs an action when it goes out of scope.

use vstd::prelude::*;

verus! {

/// Runs `op` once, when the value is dropped.
pub struct Defer<F> where F: Fn() -> () {
    op: F,
}

impl<F> Defer<F> where F: Fn() -> () {
    /// The action that the guard runs when it is dropped.
    pub closed spec fn action(&self) -> F {
        self.op
    }

    pub fn new(op: F) -> (r: Defer<F>)
        requires
            op.requires(()),
        ensures
            r.action() == op,
    {
        Defer { op }
    }

    #[verifier::type_invariant]
    spec fn callable(&self) -> bool {
        self.op.requires(())
    }
}

impl<F> Drop for Defer<F> where F: Fn() -> () {
    /// Runs the action. Trusted: Verus asks of a destructor that it neither
    /// unwinds nor opens an invariant, which cannot be shown of an action
    /// that the caller hands in; the call of `Fn::call` stands here unproved.
    #[verifier::external_body]
    fn drop(&mut self)
        opens_invariants none
        no_unwind
    {
        (self.op)();
    }
}

} // verus!
