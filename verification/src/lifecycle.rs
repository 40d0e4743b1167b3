//! The order of events within one invocation of a test.
//!
//! An invocation constructs an instance of every fixture in declared order,
//! sets each one up in declared order, runs the test body, and tears every
//! constructed instance down, newest first. A step that fails cuts the way
//! short, but never past the teardown of what was constructed.

use vstd::prelude::*;

verus! {

/// One step of an invocation. The number names the fixture by its position
/// in the test's declaration.
#[derive(Clone, Copy, Debug, PartialEq, Eq, Structural)]
pub enum Step {
    /// Construct an instance of the fixture from its parameter tuple.
    Construct(usize),
    /// Run the fixture's setup on its instance.
    Setup(usize),
    /// Run the test body with the bindings of all fixtures.
    Body,
    /// Run the fixture's teardown on its instance and release the instance.
    TearDown(usize),
    /// Nothing is left to do.
    Done,
}

/// `step` belongs to an invocation with `fixtures` fixtures.
pub open spec fn admits(fixtures: usize, step: Step) -> bool {
    match step {
        Step::Construct(fixture) => fixture < fixtures,
        Step::Setup(fixture) => fixture < fixtures,
        Step::Body => true,
        Step::TearDown(fixture) => fixture < fixtures,
        Step::Done => true,
    }
}

/// The number of instances that exist while `step` is waiting to be taken.
/// They are always the instances of the first so many fixtures.
pub open spec fn live(fixtures: usize, step: Step) -> nat {
    match step {
        Step::Construct(fixture) => fixture as nat,
        Step::Setup(_) => fixtures as nat,
        Step::Body => fixtures as nat,
        Step::TearDown(fixture) => (fixture + 1) as nat,
        Step::Done => 0,
    }
}

/// The step that releases the newest of `live` instances, or ends the
/// invocation when none exists.
pub open spec fn release(live: nat) -> Step {
    if live > 0 {
        Step::TearDown((live - 1) as usize)
    } else {
        Step::Done
    }
}

/// The step an invocation starts with.
pub open spec fn first_step(fixtures: usize) -> Step {
    if fixtures > 0 {
        Step::Construct(0)
    } else {
        Step::Body
    }
}

/// The step that follows `step`, given whether `step` passed or failed.
///
/// A failed construction leaves no instance of that fixture behind. After
/// any failure, and after the body, what remains is to tear down the
/// instances that exist, newest first. A teardown that fails does not stop
/// the teardowns that are still due.
pub open spec fn step_after(fixtures: usize, step: Step, passed: bool) -> Step {
    if !admits(fixtures, step) {
        Step::Done
    } else {
        match step {
            Step::Construct(fixture) => if !passed {
                release(fixture as nat)
            } else if fixture + 1 < fixtures {
                Step::Construct((fixture + 1) as usize)
            } else {
                Step::Setup(0)
            },
            Step::Setup(fixture) => if !passed {
                release(fixtures as nat)
            } else if fixture + 1 < fixtures {
                Step::Setup((fixture + 1) as usize)
            } else {
                Step::Body
            },
            Step::Body => release(fixtures as nat),
            Step::TearDown(fixture) => release(fixture as nat),
            Step::Done => Step::Done,
        }
    }
}

/// An upper bound on the number of steps still to be taken, `step` included.
pub open spec fn steps_left(fixtures: usize, step: Step) -> nat {
    match step {
        Step::Construct(fixture) => (3 * fixtures - fixture + 1) as nat,
        Step::Setup(fixture) => (2 * fixtures - fixture + 1) as nat,
        Step::Body => (fixtures + 1) as nat,
        Step::TearDown(fixture) => (fixture + 1) as nat,
        Step::Done => 0,
    }
}

/// The step an invocation starts with.
pub fn first(fixtures: usize) -> (step: Step)
    ensures
        step == first_step(fixtures),
{
    if fixtures > 0 {
        Step::Construct(0)
    } else {
        Step::Body
    }
}

/// The step that follows `step`, given whether `step` passed or failed.
pub fn next(fixtures: usize, step: Step, passed: bool) -> (following: Step)
    ensures
        following == step_after(fixtures, step, passed),
{
    match step {
        Step::Construct(fixture) => {
            if fixture >= fixtures {
                Step::Done
            } else if !passed {
                releasing(fixture)
            } else if fixture < fixtures - 1 {
                Step::Construct(fixture + 1)
            } else {
                Step::Setup(0)
            }
        },
        Step::Setup(fixture) => {
            if fixture >= fixtures {
                Step::Done
            } else if !passed {
                releasing(fixtures)
            } else if fixture < fixtures - 1 {
                Step::Setup(fixture + 1)
            } else {
                Step::Body
            }
        },
        Step::Body => releasing(fixtures),
        Step::TearDown(fixture) => {
            if fixture >= fixtures {
                Step::Done
            } else {
                releasing(fixture)
            }
        },
        Step::Done => Step::Done,
    }
}

/// The step that releases the newest of `live` instances.
fn releasing(live: usize) -> (step: Step)
    ensures
        step == release(live as nat),
{
    if live > 0 {
        Step::TearDown(live - 1)
    } else {
        Step::Done
    }
}

/// An invocation never leaves its own steps.
pub proof fn lemma_steps_stay_admitted(fixtures: usize, step: Step, passed: bool)
    requires
        admits(fixtures, step),
    ensures
        admits(fixtures, first_step(fixtures)),
        admits(fixtures, step_after(fixtures, step, passed)),
{
}

/// Every invocation comes to its end, whatever passes and whatever fails:
/// each step taken leaves fewer steps to take, and only `Done` leaves none.
pub proof fn lemma_invocation_ends(fixtures: usize, step: Step, passed: bool)
    requires
        admits(fixtures, step),
        step != Step::Done,
    ensures
        steps_left(fixtures, step_after(fixtures, step, passed)) < steps_left(fixtures, step),
        steps_left(fixtures, step) <= 3 * fixtures + 1,
        steps_left(fixtures, step_after(fixtures, step, passed)) == 0 <==> step_after(
            fixtures,
            step,
            passed,
        ) == Step::Done,
{
}

/// Instances come into being only by a construction that passes and cease
/// only by a teardown, one at a time: a passed `Construct(j)` makes instance
/// `j` the newest, `TearDown(j)` releases instance `j`, which is the newest,
/// and every other step leaves the instances as they are. An invocation
/// starts and ends with none.
pub proof fn lemma_instances_accounted(fixtures: usize, step: Step, passed: bool)
    requires
        admits(fixtures, step),
    ensures
        live(fixtures, first_step(fixtures)) == 0,
        live(fixtures, Step::Done) == 0,
        step matches Step::Construct(fixture) ==> live(fixtures, step) == fixture,
        step matches Step::TearDown(fixture) ==> live(fixtures, step) == fixture + 1,
        live(fixtures, step_after(fixtures, step, passed)) == match step {
            Step::Construct(_) => if passed {
                live(fixtures, step) + 1
            } else {
                live(fixtures, step)
            },
            Step::TearDown(_) => (live(fixtures, step) - 1) as nat,
            _ => live(fixtures, step),
        },
{
}

/// The body runs only with every fixture constructed and set up: the step
/// before `Body` is the passed setup of the last fixture, or, for a test
/// without fixtures, nothing at all.
pub proof fn lemma_body_needs_all_set_up(fixtures: usize, step: Step, passed: bool)
    requires
        admits(fixtures, step),
        step_after(fixtures, step, passed) == Step::Body,
    ensures
        passed,
        step == Step::Setup((fixtures - 1) as usize),
        fixtures > 0,
{
}

/// Fixtures are constructed in declared order, then set up in declared
/// order, and torn down in the reverse order: a construction or setup
/// follows the passed construction or setup of the fixture before it, and
/// the teardown of a fixture follows the teardown of the fixture after it,
/// or, for the newest instance, whatever ended the way forward.
pub proof fn lemma_order_of_steps(fixtures: usize, step: Step, passed: bool)
    requires
        admits(fixtures, step),
    ensures
        match step_after(fixtures, step, passed) {
            Step::Construct(fixture) => passed && fixture > 0 && step == Step::Construct(
                (fixture - 1) as usize,
            ),
            Step::Setup(fixture) => passed && if fixture == 0 {
                step == Step::Construct((fixtures - 1) as usize)
            } else {
                step == Step::Setup((fixture - 1) as usize)
            },
            Step::Body => passed && step == Step::Setup((fixtures - 1) as usize),
            Step::TearDown(fixture) => {
                ||| step == Step::TearDown((fixture + 1) as usize)
                ||| !passed && step == Step::Construct((fixture + 1) as usize)
                ||| fixture + 1 == fixtures && (step == Step::Body || (!passed && step is Setup))
            },
            Step::Done => true,
        },
{
}

} // verus!
