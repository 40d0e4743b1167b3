//! The value a fixture's setup hands to a test, paired with the fixture itself.

use vstd::prelude::*;

verus! {

/// What `setup` produced, together with a shared reference to the fixture
/// instance that produced it.
pub struct FixtureBinding<'fixture, F: 'fixture, R> {
    pub val: R,
    pub params: &'fixture F,
}

impl<'fixture, F: 'fixture, R> FixtureBinding<'fixture, F, R> {
    /// Splits the binding into the produced value and the fixture reference.
    pub fn decompose(self) -> (parts: (R, &'fixture F))
        ensures
            parts.0 == self.val,
            parts.1 == self.params,
    {
        (self.val, self.params)
    }

    /// Keeps the produced value and lets go of the fixture reference.
    pub fn into_val(self) -> (val: R)
        ensures
            val == self.val,
    {
        self.val
    }

    /// Keeps the fixture reference and drops the produced value.
    pub fn into_params(self) -> (params: &'fixture F)
        ensures
            params == self.params,
    {
        self.params
    }
}

} // verus!
