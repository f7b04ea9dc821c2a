//! Why a run stops: a line that does not decode, or an event that breaks the
//! nesting of suites and tests.

use vstd::prelude::*;

verus! {

#[derive(Clone, Debug, PartialEq, Eq)]
pub enum ParseError {
    /// A line that opens a JSON object decodes to no event, even after the
    /// backslash repair; it holds the line and the decoder's first message.
    Decode { line: String, message: String },
    /// A duration field of a test event is no number, or an exec time lacks
    /// its `s` suffix.
    InvalidDuration,
    /// A suite starts while another one is active.
    SuiteAlreadyStarted,
    /// A suite ends while no suite is active.
    SuiteEndOutsideSuite,
    /// A suite ends while some of its tests are still pending.
    TestsPending,
    /// A test event comes while no suite is active.
    TestOutsideSuite,
    /// A test starts under a name that is already pending.
    DuplicateTest,
    /// A test completes under a name that is not pending.
    UnknownTest,
    /// The suite counter is exhausted.
    TooManySuites,
}

} // verus!
