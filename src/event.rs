//! The events of the test runner's JSON protocol.
//!
//! Numbers of the protocol are held as the decimal text that writes them
//! (`"0.25"`, `"-3"`), so that they scale to nanoseconds exactly.

use vstd::prelude::*;
use crate::duration::{exec_time_text, parse_exec_time, parse_millis, parse_seconds, scaled_decimal};

verus! {

#[derive(Clone, Copy, Debug, PartialEq, Eq, Structural)]
pub struct SuiteResults {
    pub passed: usize,
    pub failed: usize,
}

#[derive(Clone, Debug, PartialEq, Eq)]
pub enum SuiteEvent {
    Started { test_count: usize },
    Passed { results: SuiteResults },
    Failed { results: SuiteResults },
}

#[derive(Clone, Debug, PartialEq, Eq)]
pub enum TestEvent {
    Started { name: String },
    Passed { name: String },
    Failed { name: String, stdout: Option<String>, stderr: Option<String> },
    Ignored { name: String },
    Timeout { name: String },
}

impl TestEvent {
    pub open spec fn spec_name(&self) -> Seq<char> {
        match self {
            TestEvent::Started { name } => name@,
            TestEvent::Passed { name } => name@,
            TestEvent::Failed { name, .. } => name@,
            TestEvent::Ignored { name } => name@,
            TestEvent::Timeout { name } => name@,
        }
    }

    /// The full name of the test that the event is about.
    pub fn name(&self) -> (r: &String)
        ensures
            r@ == self.spec_name(),
    {
        match self {
            TestEvent::Started { name } => name,
            TestEvent::Passed { name } => name,
            TestEvent::Failed { name, .. } => name,
            TestEvent::Ignored { name } => name,
            TestEvent::Timeout { name } => name,
        }
    }
}

/// One event of the stream. A test event carries up to two durations: the
/// milliseconds in `duration`, and the seconds in `exec_time`, written either
/// as a string with an `s` suffix or as a plain number.
#[derive(Clone, Debug, PartialEq, Eq)]
pub enum Event {
    Suite { event: SuiteEvent },
    TestStringTime { event: TestEvent, duration: Option<String>, exec_time: Option<String> },
    TestFloatTime { event: TestEvent, duration: Option<String>, exec_time: Option<String> },
}

/// The milliseconds field in nanoseconds: `Some(None)` when absent, `None`
/// when it is no number.
pub open spec fn millis_field(duration: Option<String>) -> Option<Option<int>> {
    match duration {
        None => Some(None),
        Some(ms) => match scaled_decimal(ms@, 6) {
            Some(v) => Some(Some(v)),
            None => None,
        },
    }
}

/// Wraps a field that is present.
pub open spec fn present(v: Option<int>) -> Option<Option<int>> {
    match v {
        Some(x) => Some(Some(x)),
        None => None,
    }
}

impl Event {
    pub open spec fn is_test(&self) -> bool {
        !(self is Suite)
    }

    /// What a test event reports of its test.
    pub open spec fn spec_test_event(&self) -> TestEvent
        recommends
            self.is_test(),
    {
        match self {
            Event::TestStringTime { event, .. } => *event,
            Event::TestFloatTime { event, .. } => *event,
            Event::Suite { .. } => arbitrary(),
        }
    }

    /// The duration of a test event in nanoseconds: `Some(Some(d))` when
    /// one is given, `Some(None)` when none is, and `None` when a field is
    /// malformed. The exec time wins over the milliseconds.
    pub open spec fn spec_duration(&self) -> Option<Option<int>> {
        match self {
            Event::Suite { .. } => Some(None),
            Event::TestStringTime { duration, exec_time, .. } => match exec_time {
                Some(s) => present(exec_time_text(s@)),
                None => millis_field(*duration),
            },
            Event::TestFloatTime { duration, exec_time, .. } => match exec_time {
                Some(s) => present(scaled_decimal(s@, 9)),
                None => millis_field(*duration),
            },
        }
    }

    /// Resolves the durations of a test event to nanoseconds (see
    /// `spec_duration`); `Err(())` when a field is malformed.
    pub fn get_duration(&self) -> (r: Result<Option<i64>, ()>)
        requires
            self.is_test(),
        ensures
            r matches Ok(d) ==> self.spec_duration() == Some(
                match d {
                    Some(x) => Some(x as int),
                    None => None,
                },
            ),
            r is Err ==> self.spec_duration() is None,
    {
        let (duration, secs) = match self {
            Event::TestStringTime { duration, exec_time, .. } => {
                match exec_time {
                    Some(s) => {
                        return match parse_exec_time(s.as_str()) {
                            Some(v) => Ok(Some(v)),
                            None => Err(()),
                        };
                    },
                    None => (duration, None),
                }
            },
            Event::TestFloatTime { duration, exec_time, .. } => (duration, exec_time.as_ref()),
            Event::Suite { .. } => {
                return Ok(None);
            },
        };
        if let Some(s) = secs {
            return match parse_seconds(s.as_str()) {
                Some(v) => Ok(Some(v)),
                None => Err(()),
            };
        }
        match duration {
            Some(ms) => match parse_millis(ms.as_str()) {
                Some(v) => Ok(Some(v)),
                None => Err(()),
            },
            None => Ok(None),
        }
    }
}

/// Whenever a test event carries an exec time, its milliseconds field has no
/// say in the duration: the same event without it resolves the same.
pub proof fn exec_time_wins(event: TestEvent, duration: Option<String>, exec_time: String)
    ensures
        (Event::TestStringTime { event, duration, exec_time: Some(exec_time) }).spec_duration() == (
        Event::TestStringTime { event, duration: None, exec_time: Some(exec_time) }).spec_duration(),
        (Event::TestFloatTime { event, duration, exec_time: Some(exec_time) }).spec_duration() == (
        Event::TestFloatTime { event, duration: None, exec_time: Some(exec_time) }).spec_duration(),
{
}

} // verus!
