//! The contract every fixture implements.

use vstd::prelude::*;
use crate::binding::FixtureBinding;
use std::fmt::Debug;

verus! {

/// A reusable unit of setup and teardown for tests, instantiated from a
/// tuple `P` of parameters and handing a value `R` to the test.
///
/// An implementation promises what the clauses below state. Where it is not
/// verified itself, these are assumptions of whatever is proved about its
/// use.
pub trait TestFixture<'param, P, R>: Sized where P: Debug + 'static {
    /// The parameter tuples that the fixture's generator yields, in order.
    /// `None` for a fixture that takes parameters and declares no generator;
    /// the one empty tuple for a fixture without parameters.
    open spec fn parameter_set() -> Option<Seq<P>> {
        arbitrary()
    }

    /// The parameter tuple that the instance was constructed from.
    open spec fn bound(&self) -> P {
        arbitrary()
    }

    /// Constructs an instance bound to `curried_params`. It stores the
    /// parameters and does nothing else.
    fn new(curried_params: &'param P) -> (instance: Self)
        ensures
            instance.bound() == *curried_params,
    ;

    /// The tuples to instantiate the fixture with when a test names it
    /// without arguments. Every call yields the same tuples in the same
    /// order.
    fn parameters() -> (generated: Option<Vec<P>>)
        ensures
            generated is Some <==> Self::parameter_set() is Some,
            generated matches Some(tuples) ==> tuples@ == Self::parameter_set()->0,
    ;

    /// Prepares the instance and produces the value for the test. Setup may
    /// change the state of the instance but not the tuple it is bound to,
    /// and the binding refers to this very instance, as setup has left it.
    fn setup(&mut self) -> (binding: FixtureBinding<Self, R>)
        ensures
            *binding.params == *final(self),
            final(self).bound() == old(self).bound(),
    ;

    /// Cleans up after the test. Does nothing unless the fixture says
    /// otherwise. Whoever drives a test calls it once on every instance
    /// that was constructed, also where a setup or the test body failed.
    fn tear_down(&self) {
    }
}

/// Asking a fixture for its parameters twice gives the same tuples in the
/// same order both times: the generator can be run again as often as the
/// expansion of a test needs it.
pub proof fn lemma_parameters_restartable<'param, P, R, F>(
    first: Option<Vec<P>>,
    second: Option<Vec<P>>,
) where P: Debug + 'static, F: TestFixture<'param, P, R>
    requires
        call_ensures(F::parameters, (), first),
        call_ensures(F::parameters, (), second),
    ensures
        first is Some <==> second is Some,
        first is Some ==> first->0@ == second->0@,
{
}

} // verus!
