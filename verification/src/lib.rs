//! Fixtures for parameterised tests.
//!
//! A fixture is a reusable unit of setup and teardown that hands a value to
//! a test. A test names the fixtures it needs; where a fixture comes with
//! several parameter tuples, the test is run once for every combination of
//! them, and a combination that fails does not keep the others from running.
//!
//! [`TestFixture`] is what a fixture implements and [`FixtureBinding`] what
//! its setup returns. [`source`] finds the parameter tuples of a fixture,
//! [`expander`] enumerates their combinations, [`lifecycle`] orders the steps
//! of one invocation, [`run`] leads a driver through a whole test, and
//! [`report`] words what the user is told.

pub mod binding;
pub mod expander;
pub mod fixture;
pub mod lifecycle;
pub mod report;
pub mod run;
pub mod source;

pub use binding::FixtureBinding;
pub use fixture::TestFixture;
