//! The report: ordered suites of ordered test cases.

use vstd::prelude::*;

verus! {

/// How a test case ended; times are in nanoseconds.
#[derive(Clone, Debug, PartialEq, Eq)]
pub enum TestStatus {
    Success { time: i64 },
    /// A failed case; `system_out` and `system_err` hold captured output,
    /// bounded in length, as bytes of UTF-8 text.
    Failure {
        time: i64,
        kind: String,
        message: String,
        system_out: Option<Vec<u8>>,
        system_err: Option<Vec<u8>>,
    },
    Skipped,
}

#[derive(Clone, Debug, PartialEq, Eq)]
pub struct TestCase {
    pub name: String,
    pub classname: Option<String>,
    pub status: TestStatus,
}

impl TestCase {
    pub fn is_success(&self) -> (r: bool)
        ensures
            r == (self.status is Success),
    {
        matches!(self.status, TestStatus::Success { .. })
    }

    /// The duration of the case in nanoseconds; zero when it was skipped.
    pub fn time(&self) -> (r: i64)
        ensures
            r == match self.status {
                TestStatus::Success { time } => time,
                TestStatus::Failure { time, .. } => time,
                TestStatus::Skipped => 0,
            },
    {
        match &self.status {
            TestStatus::Success { time } => *time,
            TestStatus::Failure { time, .. } => *time,
            TestStatus::Skipped => 0,
        }
    }
}

/// A suite: its display name, the run's timestamp in nanoseconds since the
/// epoch, and its cases in the order they completed.
#[derive(Clone, Debug, PartialEq, Eq)]
pub struct TestSuite {
    pub name: String,
    pub timestamp: i64,
    pub testcases: Vec<TestCase>,
}

#[derive(Clone, Debug, PartialEq, Eq)]
pub struct Report {
    pub testsuites: Vec<TestSuite>,
}

} // verus!
