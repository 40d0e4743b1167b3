//! What a test tells its user: which parameterisation failed, and whether the
//! test as a whole passed.

use vstd::prelude::*;
use vstd::string::StringExecFns;

verus! {

/// The text between the descriptions of two fixture instances.
pub const SEPARATOR: &'static str = ", ";

/// The description of an invocation that failed before every fixture was
/// constructed and set up.
pub const UNASSIGNED: &'static str = "Test panicked before all fixtures have been assigned.";

/// The text that introduces the description of a failed invocation.
pub const HEADING: &'static str =
    "The above error occured with the following parameterisation of the test case:\n    ";

/// What a test says in the end when one of its invocations has failed.
pub const SUMMARY: &'static str = "Some parameterised test cases failed";

/// The texts of `parts`, one after the other, with `between` between each
/// two of them.
pub open spec fn joined(parts: Seq<Seq<char>>, between: Seq<char>) -> Seq<char>
    decreases parts.len(),
{
    if parts.len() == 0 {
        Seq::empty()
    } else if parts.len() == 1 {
        parts[0]
    } else {
        joined(parts.drop_last(), between) + between + parts.last()
    }
}

/// What each of `parts` holds.
pub open spec fn texts(parts: Seq<String>) -> Seq<Seq<char>> {
    Seq::new(parts.len(), |at: int| parts[at]@)
}

/// The description of an invocation: the descriptions of its fixture
/// instances in declared order, separated by `", "`.
pub fn describe(parts: &Vec<String>) -> (description: String)
    ensures
        description@ == joined(texts(parts@), SEPARATOR@),
{
    let mut description = String::new();
    let mut at: usize = 0;
    assert(texts(parts@).take(0) =~= Seq::<Seq<char>>::empty());
    while at < parts.len()
        invariant
            at <= parts.len(),
            description@ == joined(texts(parts@).take(at as int), SEPARATOR@),
        decreases parts.len() - at,
    {
        proof {
            let longer = texts(parts@).take(at + 1);
            assert(longer.drop_last() =~= texts(parts@).take(at as int));
            assert(longer.last() == parts[at as int]@);
            if at == 0 {
                assert(description@ + parts[at as int]@ =~= parts[at as int]@);
            }
        }
        if at > 0 {
            description.append(SEPARATOR);
        }
        description.append(parts[at].as_str());
        at += 1;
    }
    assert(texts(parts@).take(at as int) =~= texts(parts@));
    description
}

/// The description used for an invocation that failed before every fixture
/// was constructed and set up.
pub fn unassigned_description() -> (description: String)
    ensures
        description@ == UNASSIGNED@,
{
    String::from_str(UNASSIGNED)
}

/// The notice to print for a failed invocation: the heading, the
/// invocation's description, and a line break.
pub fn notice(description: &String) -> (text: String)
    ensures
        text@ == HEADING@ + description@ + "\n"@,
{
    let mut text = String::from_str(HEADING);
    text.append(description.as_str());
    text.append("\n");
    text
}

/// The message with which a test fails when one of its invocations has
/// failed.
pub fn failure_summary() -> (text: String)
    ensures
        text@ == SUMMARY@,
{
    String::from_str(SUMMARY)
}

/// The verdict on a whole test, gathered over all its invocations.
#[derive(Debug)]
pub struct TestOutcome {
    failed: bool,
    diagnostic: String,
}

impl TestOutcome {
    /// Whether any invocation has failed.
    pub closed spec fn failed(&self) -> bool {
        self.failed
    }

    /// The description of the invocation that failed most recently; empty
    /// while none has.
    pub closed spec fn diagnostic(&self) -> Seq<char> {
        self.diagnostic@
    }

    /// The outcome of a test of which nothing has failed yet.
    pub fn new() -> (outcome: TestOutcome)
        ensures
            !outcome.failed(),
            outcome.diagnostic() == Seq::<char>::empty(),
    {
        TestOutcome { failed: false, diagnostic: String::new() }
    }

    /// Records that the invocation described by `description` failed.
    pub fn record_failure(&mut self, description: String)
        ensures
            final(self).failed(),
            final(self).diagnostic() == description@,
    {
        self.failed = true;
        self.diagnostic = description;
    }

    /// Whether any invocation has failed.
    pub fn has_failed(&self) -> (failed: bool)
        ensures
            failed == self.failed(),
    {
        self.failed
    }

    /// Whether the test passes: no invocation has failed.
    pub fn has_passed(&self) -> (passed: bool)
        ensures
            passed == !self.failed(),
    {
        !self.failed
    }

    /// The description of the invocation that failed most recently.
    pub fn last_diagnostic(&self) -> (description: &String)
        ensures
            description@ == self.diagnostic(),
    {
        &self.diagnostic
    }
}

} // verus!
