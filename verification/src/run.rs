//! The run of one test over all combinations of its fixtures' parameters.
//!
//! A [`TestRun`] decides and a driver acts. The run names the next
//! [`Action`], the driver carries it out on the fixtures and tells the run
//! how it went with an [`Event`]. A failure never ends the run early: the
//! instances of the failed invocation are torn down, its description is
//! reported, and the run goes on with the next combination.

use vstd::prelude::*;
use crate::expander::{lemma_rank_of_picks, lemma_two_fixtures, picks, product, Expansion};
use crate::lifecycle::{
    admits, first, first_step, lemma_invocation_ends, live, next, step_after, steps_left, Step,
};
use crate::report::{
    describe, joined, texts, unassigned_description, TestOutcome, SEPARATOR, UNASSIGNED,
};

verus! {

/// What the driver is to do next.
#[derive(Clone, Copy, Debug, PartialEq, Eq, Structural)]
pub enum Action {
    /// Construct an instance of the fixture at position `fixture` from the
    /// tuple at position `tuple` of its parameter set.
    Construct { fixture: usize, tuple: usize },
    /// Run setup on the instance of the fixture at position `fixture`.
    Setup { fixture: usize },
    /// Run the test body with the bindings of all fixtures.
    Body,
    /// Run teardown on the instance of the fixture at position `fixture`,
    /// then release the instance.
    TearDown { fixture: usize },
    /// Print the description of the invocation that has just failed.
    Report,
    /// Nothing is left to run; report whether the test as a whole passed.
    Finish { passed: bool },
}

/// How the action went.
///
/// A construction that is reported as `Passed` counts as constructed, with
/// an empty description. `Constructed` in answer to any other action counts
/// as `Passed`, and its description is dropped.
#[derive(Debug, PartialEq, Eq)]
pub enum Event {
    /// The instance was constructed and describes itself by this text.
    Constructed(String),
    /// The action came to its end.
    Passed,
    /// The action ended abruptly.
    Failed,
}

impl Event {
    /// Whether the action came to its end.
    pub open spec fn passed(self) -> bool {
        !(self is Failed)
    }

    /// The description of the instance that was constructed, empty where
    /// the event carries none.
    pub open spec fn description(self) -> Seq<char> {
        match self {
            Event::Constructed(text) => text@,
            _ => Seq::empty(),
        }
    }
}

/// The state of a run.
pub struct RunState {
    /// The sizes of the fixtures' parameter sets, in declared order.
    pub sizes: Seq<usize>,
    /// How many invocations have come to their end. While the run lasts,
    /// this is also the number of the current invocation.
    pub executed: nat,
    /// The step that the current invocation waits for.
    pub step: Step,
    /// Whether a step of the current invocation has failed.
    pub failed: bool,
    /// Whether the current invocation has had all its fixtures constructed
    /// and set up.
    pub assigned: bool,
    /// Whether the description of the invocation that ended last is still to
    /// be reported.
    pub reporting: bool,
    /// The descriptions of the instances that the current invocation has
    /// constructed, in declared order.
    pub descriptions: Seq<Seq<char>>,
    /// How many invocations have failed.
    pub failures: nat,
    /// How many failed invocations have had their description reported.
    pub reported: nat,
    /// The description of the invocation that failed most recently.
    pub diagnostic: Seq<char>,
    /// For each fixture, how many instances of it have been constructed.
    pub constructions: Seq<nat>,
    /// For each fixture, how many of its instances have been torn down.
    pub teardowns: Seq<nat>,
}

impl RunState {
    /// The number of fixtures of the test.
    pub open spec fn fixtures(self) -> usize {
        self.sizes.len() as usize
    }

    /// Whether every invocation has come to its end and been reported.
    pub open spec fn finished(self) -> bool {
        !self.reporting && self.executed >= product(self.sizes)
    }

    /// The description of the current invocation as a failure would report
    /// it now.
    pub open spec fn description(self) -> Seq<char> {
        if self.assigned {
            joined(self.descriptions, SEPARATOR@)
        } else {
            UNASSIGNED@
        }
    }
}

/// The state in which a run over parameter sets of these sizes starts.
pub open spec fn initial(sizes: Seq<usize>) -> RunState {
    RunState {
        sizes,
        executed: 0,
        step: first_step(sizes.len() as usize),
        failed: false,
        assigned: sizes.len() == 0,
        reporting: false,
        descriptions: Seq::empty(),
        failures: 0,
        reported: 0,
        diagnostic: Seq::empty(),
        constructions: Seq::new(sizes.len(), |fixture: int| 0nat),
        teardowns: Seq::new(sizes.len(), |fixture: int| 0nat),
    }
}

/// What the driver is to do in state `state`.
pub open spec fn action_of(state: RunState) -> Action {
    if state.reporting {
        Action::Report
    } else if state.executed >= product(state.sizes) {
        Action::Finish { passed: state.failures == 0 }
    } else {
        match state.step {
            Step::Construct(fixture) => Action::Construct {
                fixture,
                tuple: picks(state.sizes, state.executed)[fixture as int],
            },
            Step::Setup(fixture) => Action::Setup { fixture },
            Step::Body => Action::Body,
            Step::TearDown(fixture) => Action::TearDown { fixture },
            Step::Done => Action::Finish { passed: state.failures == 0 },
        }
    }
}

/// The state of the current invocation after its awaited step went as
/// `event` says, before it is known whether the invocation is over.
///
/// An invocation has failed as soon as one of its steps has, a teardown
/// included. Further failures of the same invocation change nothing: it is
/// counted and reported once.
pub open spec fn stepped(state: RunState, event: Event) -> RunState {
    let passed = event.passed();
    let following = step_after(state.fixtures(), state.step, passed);
    RunState {
        step: following,
        failed: state.failed || !passed,
        assigned: state.assigned || following == Step::Body,
        descriptions: if state.step is Construct && passed {
            state.descriptions.push(event.description())
        } else {
            state.descriptions
        },
        constructions: match state.step {
            Step::Construct(fixture) if passed => state.constructions.update(
                fixture as int,
                state.constructions[fixture as int] + 1,
            ),
            _ => state.constructions,
        },
        teardowns: match state.step {
            Step::TearDown(fixture) => state.teardowns.update(
                fixture as int,
                state.teardowns[fixture as int] + 1,
            ),
            _ => state.teardowns,
        },
        ..state
    }
}

/// The state after the current invocation, which has come to its end in
/// `state`, is counted and the next one is made ready. A failed invocation
/// leaves its description behind to be reported.
pub open spec fn concluded(state: RunState) -> RunState {
    RunState {
        executed: state.executed + 1,
        step: first_step(state.fixtures()),
        failed: false,
        assigned: state.sizes.len() == 0,
        reporting: state.failed,
        descriptions: Seq::empty(),
        failures: if state.failed {
            state.failures + 1
        } else {
            state.failures
        },
        diagnostic: if state.failed {
            state.description()
        } else {
            state.diagnostic
        },
        ..state
    }
}

/// The state that follows `state` when the action of `state` went as `event`
/// says.
///
/// A report, once made, gives way to the next invocation. A finished run
/// stays as it is. Otherwise the current invocation takes its step, and is
/// concluded when that was its last.
pub open spec fn state_after(state: RunState, event: Event) -> RunState {
    if state.reporting {
        RunState { reporting: false, reported: state.reported + 1, ..state }
    } else if state.executed >= product(state.sizes) {
        state
    } else {
        let moved = stepped(state, event);
        if moved.step == Step::Done {
            concluded(moved)
        } else {
            moved
        }
    }
}

/// The instances of the fixture at position `fixture` are accounted for: all
/// that were constructed have been torn down, but for the one that exists
/// now, if one does.
pub open spec fn balanced(state: RunState, fixture: int) -> bool {
    state.constructions[fixture] == state.teardowns[fixture] + if fixture < live(
        state.fixtures(),
        state.step,
    ) {
        1nat
    } else {
        0nat
    }
}

/// What holds of every state that a run can reach.
pub open spec fn coherent(state: RunState) -> bool {
    &&& state.sizes.len() <= usize::MAX
    &&& state.constructions.len() == state.sizes.len()
    &&& state.teardowns.len() == state.sizes.len()
    &&& admits(state.fixtures(), state.step)
    &&& state.step != Step::Done
    &&& state.executed <= product(state.sizes)
    &&& state.failures <= state.executed
    &&& state.failures == state.reported + if state.reporting {
        1nat
    } else {
        0nat
    }
    &&& (state.step is Construct || state.step is Setup || state.step is Body) ==> !state.failed
    &&& state.executed == product(state.sizes) ==> state.step == first_step(state.fixtures())
    &&& forall|fixture: int| 0 <= fixture < state.sizes.len() ==> balanced(state, fixture)
    &&& match state.step {
        Step::Construct(fixture) => state.descriptions.len() == fixture && !state.assigned,
        Step::Setup(_) => state.descriptions.len() == state.sizes.len() && !state.assigned,
        Step::Body => state.descriptions.len() == state.sizes.len() && state.assigned,
        _ => true,
    }
    &&& state.assigned ==> state.descriptions.len() == state.sizes.len()
}

/// A run starts in a coherent state.
pub proof fn lemma_initial_coherent(sizes: Seq<usize>)
    requires
        sizes.len() <= usize::MAX,
    ensures
        coherent(initial(sizes)),
{
}

/// Whatever happens, a coherent state is followed by a coherent state.
pub proof fn lemma_coherence_kept(state: RunState, event: Event)
    requires
        coherent(state),
    ensures
        coherent(state_after(state, event)),
{
    let moved = stepped(state, event);
    let after = state_after(state, event);
    assert forall|fixture: int| 0 <= fixture < state.sizes.len() implies balanced(
        after,
        fixture,
    ) by {
        assert(balanced(state, fixture));
        if !state.reporting && state.executed < product(state.sizes) {
            assert(balanced(moved, fixture));
        }
    }
}

/// The state of a run over parameter sets of these sizes after the driver
/// has reported `events`, one after the other.
pub open spec fn state_reached(sizes: Seq<usize>, events: Seq<Event>) -> RunState
    decreases events.len(),
{
    if events.len() == 0 {
        initial(sizes)
    } else {
        state_after(state_reached(sizes, events.drop_last()), events.last())
    }
}

/// Whatever the driver reports, in whatever order, the run stays coherent
/// and keeps the sizes it was started with.
pub proof fn lemma_every_run_coherent(sizes: Seq<usize>, events: Seq<Event>)
    requires
        sizes.len() <= usize::MAX,
    ensures
        coherent(state_reached(sizes, events)),
        state_reached(sizes, events).sizes == sizes,
    decreases events.len(),
{
    if events.len() == 0 {
        lemma_initial_coherent(sizes);
    } else {
        lemma_every_run_coherent(sizes, events.drop_last());
        lemma_coherence_kept(state_reached(sizes, events.drop_last()), events.last());
    }
}

/// Every instance that was constructed is torn down exactly once by the time
/// its invocation is over, however many steps failed. So whenever the run
/// stands between two invocations, and when it is finished, each fixture has
/// seen as many teardowns as constructions; within an invocation the two
/// differ by the one instance that exists.
pub proof fn lemma_teardowns_match_constructions(state: RunState, fixture: int)
    requires
        coherent(state),
        0 <= fixture < state.sizes.len(),
    ensures
        state.finished() ==> state.teardowns[fixture] == state.constructions[fixture],
        state.step == first_step(state.fixtures()) ==> state.teardowns[fixture]
            == state.constructions[fixture],
        state.teardowns[fixture] <= state.constructions[fixture] <= state.teardowns[fixture] + 1,
{
    assert(balanced(state, fixture));
}

/// A finished run has executed every combination of the parameter sets, no
/// matter how many of them failed. It passes exactly if none failed, and it
/// has reported each failed invocation once.
pub proof fn lemma_no_early_termination(state: RunState)
    requires
        coherent(state),
        state.finished(),
    ensures
        state.executed == product(state.sizes),
        state.failures <= state.executed,
        state.reported == state.failures,
        action_of(state) == (Action::Finish { passed: state.failures == 0 }),
{
}

/// What holds at the end of every run, whatever the driver reported on the
/// way: every combination has been executed, every failed invocation has
/// been reported once, the test passes exactly if no invocation failed, and
/// every fixture has seen as many teardowns as constructions.
pub proof fn lemma_finished_run(sizes: Seq<usize>, events: Seq<Event>)
    requires
        sizes.len() <= usize::MAX,
        state_reached(sizes, events).finished(),
    ensures
        ({
            let state = state_reached(sizes, events);
            &&& state.executed == product(sizes)
            &&& state.reported == state.failures
            &&& action_of(state) == (Action::Finish { passed: state.failures == 0 })
            &&& forall|fixture: int|
                0 <= fixture < sizes.len() ==> state.teardowns[fixture]
                    == #[trigger] state.constructions[fixture]
        }),
{
    let state = state_reached(sizes, events);
    lemma_every_run_coherent(sizes, events);
    lemma_no_early_termination(state);
    assert forall|fixture: int| 0 <= fixture < sizes.len() implies state.teardowns[fixture]
        == #[trigger] state.constructions[fixture] by {
        lemma_teardowns_match_constructions(state, fixture);
    }
}

/// While a combination is left to execute or a failure is left to report,
/// the run does not finish: it asks for an action other than `Finish`, and
/// the event that answers it never lowers the number of executed invocations
/// or of failures. A failed invocation is counted as executed like any
/// other, and the next one follows.
pub proof fn lemma_failure_does_not_stop(state: RunState, event: Event)
    requires
        coherent(state),
        !state.finished(),
    ensures
        !(action_of(state) is Finish),
        state_after(state, event).sizes == state.sizes,
        state_after(state, event).failures >= state.failures,
        state.executed <= state_after(state, event).executed <= state.executed + 1,
        state_after(state, event).executed == state.executed + 1 && !event.passed()
            ==> state_after(state, event).failures == state.failures + 1,
{
}

/// A test with two fixtures that bring `outer` and `inner` tuples runs
/// `outer * inner` invocations, and invocation `i`, counted from 0,
/// constructs the first fixture from tuple `i / inner` and the second from
/// tuple `i % inner`.
pub proof fn lemma_two_fixtures_run(state: RunState, outer: usize, inner: usize)
    requires
        coherent(state),
        state.sizes == seq![outer, inner],
    ensures
        state.finished() ==> state.executed == outer * inner,
        !state.finished() && !state.reporting ==> state.executed < outer * inner,
        !state.finished() && !state.reporting && state.step == Step::Construct(0) ==> action_of(
            state,
        ) == (Action::Construct {
            fixture: 0,
            tuple: (state.executed / (inner as nat)) as usize,
        }),
        !state.finished() && !state.reporting && state.step == Step::Construct(1) ==> action_of(
            state,
        ) == (Action::Construct {
            fixture: 1,
            tuple: (state.executed % (inner as nat)) as usize,
        }),
{
    lemma_two_fixtures(outer, inner, state.executed);
}

/// An upper bound on the number of events that a run still takes before it
/// is finished.
pub open spec fn work_left(state: RunState) -> int {
    let per_invocation = 3 * state.sizes.len() + 2;
    let reports = if state.reporting {
        1int
    } else {
        0int
    };
    (product(state.sizes) - state.executed) * per_invocation + steps_left(
        state.fixtures(),
        state.step,
    ) - (per_invocation - 1) + reports
}

/// Every run comes to its end: each event brings an unfinished run closer
/// to the finish, and the finish is where no work is left.
pub proof fn lemma_run_progresses(state: RunState, event: Event)
    requires
        coherent(state),
    ensures
        work_left(state) >= 0,
        state.finished() <==> work_left(state) == 0,
        !state.finished() ==> work_left(state_after(state, event)) < work_left(state),
{
    let per_invocation = 3 * state.sizes.len() + 2;
    let remaining = product(state.sizes) - state.executed;
    if remaining == 0 {
        assert(remaining * per_invocation == 0) by (nonlinear_arith)
            requires
                remaining == 0,
        ;
    } else {
        assert(remaining * per_invocation >= per_invocation) by (nonlinear_arith)
            requires
                remaining >= 1,
                per_invocation >= 0,
        ;
        lemma_invocation_ends(state.fixtures(), state.step, event.passed());
        if !state.reporting {
            let after = state_after(state, event);
            if after.executed == state.executed + 1 {
                assert((remaining - 1) * per_invocation == remaining * per_invocation
                    - per_invocation) by (nonlinear_arith);
            }
        }
    }
}

/// The run of one test: the state of a driver's work, and the rule that says
/// what to do next.
pub struct TestRun {
    cursor: Expansion,
    step: Step,
    failed: bool,
    assigned: bool,
    reporting: bool,
    descriptions: Vec<String>,
    outcome: TestOutcome,
    failures: Ghost<nat>,
    reported: Ghost<nat>,
    constructions: Ghost<Seq<nat>>,
    teardowns: Ghost<Seq<nat>>,
}

impl View for TestRun {
    type V = RunState;

    closed spec fn view(&self) -> RunState {
        RunState {
            sizes: self.cursor.sizes(),
            executed: self.cursor.index(),
            step: self.step,
            failed: self.failed,
            assigned: self.assigned,
            reporting: self.reporting,
            descriptions: texts(self.descriptions@),
            failures: self.failures@,
            reported: self.reported@,
            diagnostic: self.outcome.diagnostic(),
            constructions: self.constructions@,
            teardowns: self.teardowns@,
        }
    }
}

impl TestRun {
    /// The run is in a state that a run can reach.
    pub closed spec fn wf(&self) -> bool {
        &&& self.cursor.wf()
        &&& coherent(self@)
        &&& self.outcome.failed() <==> self.failures@ > 0
    }

    /// A run over parameter sets of these sizes, in the order in which the
    /// test declares its fixtures.
    pub fn new(sizes: Vec<usize>) -> (run: TestRun)
        ensures
            run.wf(),
            run@ == initial(sizes@),
    {
        let fixtures = sizes.len();
        let ghost shape = sizes@;
        let run = TestRun {
            cursor: Expansion::start(sizes),
            step: first(fixtures),
            failed: false,
            assigned: fixtures == 0,
            reporting: false,
            descriptions: Vec::new(),
            outcome: TestOutcome::new(),
            failures: Ghost(0),
            reported: Ghost(0),
            constructions: Ghost(Seq::new(shape.len(), |fixture: int| 0nat)),
            teardowns: Ghost(Seq::new(shape.len(), |fixture: int| 0nat)),
        };
        proof {
            assert(texts(run.descriptions@) =~= Seq::<Seq<char>>::empty());
            lemma_initial_coherent(shape);
        }
        run
    }

    /// What the driver is to do next.
    pub fn action(&self) -> (action: Action)
        requires
            self.wf(),
        ensures
            action == action_of(self@),
    {
        if self.reporting {
            return Action::Report;
        }
        match self.cursor.current() {
            None => Action::Finish { passed: self.outcome.has_passed() },
            Some(chosen) => {
                proof {
                    lemma_rank_of_picks(self.cursor.sizes(), self.cursor.index());
                }
                match self.step {
                    Step::Construct(fixture) => Action::Construct {
                        fixture,
                        tuple: chosen[fixture],
                    },
                    Step::Setup(fixture) => Action::Setup { fixture },
                    Step::Body => Action::Body,
                    Step::TearDown(fixture) => Action::TearDown { fixture },
                    Step::Done => Action::Finish { passed: self.outcome.has_passed() },
                }
            },
        }
    }

    /// Takes note of how the action went and moves on.
    pub fn advance(&mut self, event: Event)
        requires
            old(self).wf(),
        ensures
            final(self).wf(),
            final(self)@ == state_after(old(self)@, event),
    {
        proof {
            lemma_coherence_kept(self@, event);
        }
        if self.reporting {
            self.reporting = false;
            proof {
                self.reported@ = self.reported@ + 1;
            }
            return ;
        }
        if self.cursor.current().is_none() {
            return ;
        }
        let ghost before = self@;
        let fixtures = self.cursor.fixtures();
        let awaited = self.step;
        let passed = match event {
            Event::Constructed(text) => {
                if let Step::Construct(_) = awaited {
                    self.descriptions.push(text);
                }
                true
            },
            Event::Passed => {
                if let Step::Construct(_) = awaited {
                    self.descriptions.push(String::new());
                }
                true
            },
            Event::Failed => false,
        };
        proof {
            match awaited {
                Step::Construct(fixture) => {
                    if passed {
                        self.constructions@ = self.constructions@.update(
                            fixture as int,
                            self.constructions@[fixture as int] + 1,
                        );
                    }
                },
                Step::TearDown(fixture) => {
                    self.teardowns@ = self.teardowns@.update(
                        fixture as int,
                        self.teardowns@[fixture as int] + 1,
                    );
                },
                _ => {},
            }
        }
        let following = next(fixtures, awaited, passed);
        self.step = following;
        if !passed {
            self.failed = true;
        }
        if let Step::Body = following {
            self.assigned = true;
        }
        assert(texts(self.descriptions@) =~= stepped(before, event).descriptions);
        assert(self@ == stepped(before, event));
        if let Step::Done = following {
            if self.failed {
                let description = if self.assigned {
                    describe(&self.descriptions)
                } else {
                    unassigned_description()
                };
                self.outcome.record_failure(description);
                proof {
                    self.failures@ = self.failures@ + 1;
                }
                self.reporting = true;
            }
            self.cursor.advance();
            self.step = first(fixtures);
            self.failed = false;
            self.assigned = fixtures == 0;
            self.descriptions = Vec::new();
            assert(texts(self.descriptions@) =~= Seq::<Seq<char>>::empty());
            assert(self@ == concluded(stepped(before, event)));
        }
    }

    /// Whether nothing is left to run or to report.
    pub fn is_finished(&self) -> (finished: bool)
        requires
            self.wf(),
        ensures
            finished == self@.finished(),
    {
        !self.reporting && self.cursor.current().is_none()
    }

    /// The verdict so far: whether an invocation has failed, and the
    /// description of the one that failed most recently.
    pub fn outcome(&self) -> (outcome: &TestOutcome)
        requires
            self.wf(),
        ensures
            outcome.failed() == (self@.failures > 0),
            outcome.diagnostic() == self@.diagnostic,
    {
        &self.outcome
    }

    /// What holds of every reachable state holds of the state of the run.
    pub proof fn lemma_coherent(&self)
        requires
            self.wf(),
        ensures
            coherent(self@),
    {
    }
}

} // verus!
