//! Where the parameter tuples of a fixture come from.
//!
//! A test either names a fixture bare, and then runs once for every tuple
//! that the fixture's generator yields, or pins it to one tuple of its own.

use vstd::prelude::*;
use vstd::string::StringExecFns;
use crate::fixture::TestFixture;
use std::fmt::Debug;

verus! {

/// How a test refers to a fixture.
#[derive(Debug)]
pub enum FixtureRef<P> {
    /// By name alone: the fixture's generator supplies the tuples.
    Bare,
    /// With arguments: the test runs with this tuple and no other.
    Pinned(P),
}

/// A test declaration that cannot be run at all.
#[derive(Clone, Copy, Debug, PartialEq, Eq, Structural)]
pub enum UsageError {
    /// A fixture that takes parameters and declares no generator was named
    /// without arguments.
    MissingGenerator,
}

/// What a test is told when it names a fixture without arguments that has
/// parameters and no generator.
pub const MISSING_GENERATOR: &'static str =
    "If a test fixture should be injected without supplying parameters, \
     it either needs to have no arguments \
     or a `params` block returning an iterator of parameter tuples \
     must be given for the fixture.";

impl UsageError {
    /// What the error says, as text.
    pub open spec fn text(self) -> Seq<char> {
        MISSING_GENERATOR@
    }

    /// The message to show for the error.
    pub fn message(&self) -> (message: String)
        ensures
            message@ == self.text(),
    {
        String::from_str(MISSING_GENERATOR)
    }
}

/// The tuples that `reference` stands for, where `generated` is what the
/// fixture's generator yields.
pub open spec fn resolved<P>(reference: FixtureRef<P>, generated: Option<Seq<P>>) -> Result<
    Seq<P>,
    UsageError,
> {
    match reference {
        FixtureRef::Pinned(tuple) => Ok(seq![tuple]),
        FixtureRef::Bare => match generated {
            Some(tuples) => Ok(tuples),
            None => Err(UsageError::MissingGenerator),
        },
    }
}

/// The tuples held by `source`, if it holds any.
pub open spec fn tuples_of<P>(source: Result<Vec<P>, UsageError>) -> Result<Seq<P>, UsageError> {
    match source {
        Ok(tuples) => Ok(tuples@),
        Err(error) => Err(error),
    }
}

/// What a generator yielded, as a sequence.
pub open spec fn yield_of<P>(generated: Option<Vec<P>>) -> Option<Seq<P>> {
    match generated {
        Some(tuples) => Some(tuples@),
        None => None,
    }
}

/// The parameter set of a fixture without parameters: the empty tuple, once.
pub fn unit_parameters() -> (generated: Option<Vec<()>>)
    ensures
        yield_of(generated) == Some(seq![()]),
{
    let mut tuples: Vec<()> = Vec::new();
    tuples.push(());
    assert(tuples@ =~= seq![()]);
    Some(tuples)
}

/// The tuples that `reference` stands for, where `generated` is what the
/// fixture's generator yields.
///
/// A pinned reference stands for its own tuple and nothing else, whatever
/// the generator yields. A bare reference stands for the generator's tuples,
/// and is an error where there is no generator.
pub fn resolve<P>(reference: FixtureRef<P>, generated: Option<Vec<P>>) -> (source: Result<
    Vec<P>,
    UsageError,
>)
    ensures
        tuples_of(source) == resolved(reference, yield_of(generated)),
{
    match reference {
        FixtureRef::Pinned(tuple) => {
            let mut tuples: Vec<P> = Vec::new();
            tuples.push(tuple);
            assert(tuples@ =~= seq![tuple]);
            Ok(tuples)
        },
        FixtureRef::Bare => match generated {
            Some(tuples) => Ok(tuples),
            None => Err(UsageError::MissingGenerator),
        },
    }
}

/// The tuples that `reference` stands for when it refers to the fixture `F`.
///
/// The generator of `F` is run only for a bare reference.
pub fn parameter_source<'param, P: Debug + 'static, R, F: TestFixture<'param, P, R>>(
    reference: FixtureRef<P>,
) -> (source: Result<Vec<P>, UsageError>)
    ensures
        tuples_of(source) == resolved(reference, F::parameter_set()),
{
    match reference {
        FixtureRef::Pinned(tuple) => resolve(FixtureRef::Pinned(tuple), None),
        FixtureRef::Bare => resolve(FixtureRef::Bare, F::parameters()),
    }
}

/// A pinned reference stands for exactly one tuple, the pinned one, whether
/// the fixture has a generator or not and whatever that generator yields.
pub proof fn lemma_pinning_bypasses_generation<P>(tuple: P, generated: Option<Seq<P>>)
    ensures
        resolved(FixtureRef::Pinned(tuple), generated) == Ok::<Seq<P>, UsageError>(seq![tuple]),
        resolved(FixtureRef::Pinned(tuple), generated)->Ok_0.len() == 1,
{
}

} // verus!
