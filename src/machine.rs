//! The suite and test state machine that folds events into a report.

use vstd::prelude::*;
use vstd::string::*;
use vstd::utf8::encode_utf8;
use crate::duration::{clamp_i64, trunc_to, DurationPrecision, TestCaseDetail};
use crate::error::ParseError;
use crate::event::{Event, SuiteEvent, TestEvent};
use crate::failure::{detect_error, inferred_message, opt_view};
use crate::names::{leaf_of, module_of, split_name};
use crate::report::{Report, TestCase, TestStatus, TestSuite};
use crate::text::{truncate, truncated, MARKER_LEN};

verus! {

/// The decimal digits of `n`.
pub open spec fn decimal(n: nat) -> Seq<char>
    decreases n,
{
    if n < 10 {
        seq![((n + 48) as u32) as char]
    } else {
        decimal(n / 10) + seq![((n % 10 + 48) as u32) as char]
    }
}

/// The display name of the suite with the given index.
pub open spec fn suite_name(prefix: Seq<char>, index: nat) -> Seq<char> {
    prefix + seq![' ', '#'] + decimal(index)
}

/// The one-character text of a decimal digit.
fn digit_text(d: usize) -> (r: &'static str)
    requires
        d < 10,
    ensures
        r@ == seq![((d + 48) as u32) as char],
{
    proof {
        reveal_strlit("0");
        reveal_strlit("1");
        reveal_strlit("2");
        reveal_strlit("3");
        reveal_strlit("4");
        reveal_strlit("5");
        reveal_strlit("6");
        reveal_strlit("7");
        reveal_strlit("8");
        reveal_strlit("9");
    }
    let r = if d == 0 {
        "0"
    } else if d == 1 {
        "1"
    } else if d == 2 {
        "2"
    } else if d == 3 {
        "3"
    } else if d == 4 {
        "4"
    } else if d == 5 {
        "5"
    } else if d == 6 {
        "6"
    } else if d == 7 {
        "7"
    } else if d == 8 {
        "8"
    } else {
        "9"
    };
    assert(r@ =~= seq![((d + 48) as u32) as char]);
    r
}

/// `n` written in decimal digits, without leading zeros.
pub fn decimal_text(n: usize) -> (r: String)
    ensures
        r@ == decimal(n as nat),
    decreases n,
{
    if n < 10 {
        String::from_str(digit_text(n))
    } else {
        decimal_text(n / 10).concat(digit_text(n % 10))
    }
}

/// The display name of the suite numbered `index`.
fn numbered_name(prefix: &str, index: usize) -> (r: String)
    ensures
        r@ == suite_name(prefix@, index as nat),
{
    proof {
        reveal_strlit(" #");
    }
    let r = String::from_str(prefix).concat(" #").concat(decimal_text(index).as_str());
    assert(r@ =~= suite_name(prefix@, index as nat));
    r
}

/// A test that has started and not yet completed.
#[derive(Clone, Debug, PartialEq, Eq)]
pub struct PendingTest {
    pub name: String,
    pub detail: TestCaseDetail,
}

/// Folds the events of one run into a report. A suite is active between its
/// start and its end; tests start and complete inside it.
pub struct Parser {
    pub prefix: String,
    pub timestamp: i64,
    pub max_out_len: usize,
    pub precision: DurationPrecision,
    pub report: Report,
    pub current: Option<TestSuite>,
    pub pending: Vec<PendingTest>,
    pub suite_index: usize,
}

pub open spec fn opt_bytes(o: Option<Vec<u8>>) -> Option<Seq<u8>> {
    match o {
        Some(v) => Some(v@),
        None => None,
    }
}

/// Captured text bounded to `max_len` bytes.
pub open spec fn bounded(o: Option<Seq<char>>, max_len: nat) -> Option<Seq<u8>> {
    match o {
        Some(s) => Some(truncated(encode_utf8(s), max_len)),
        None => None,
    }
}

pub open spec fn is_success_case(c: TestCase, full: Seq<char>, time: int) -> bool {
    &&& c.name@ == leaf_of(full)
    &&& c.classname is Some && c.classname->Some_0@ == module_of(full)
    &&& c.status is Success && c.status->Success_time == time
}

pub open spec fn is_skipped_case(c: TestCase, full: Seq<char>) -> bool {
    c.name@ == full && c.classname is None && c.status is Skipped
}

/// A failed case: an inferred message goes to its system-out alone, else
/// its stdout and stderr go to system-out and system-err; all bounded.
pub open spec fn is_failure_case(
    c: TestCase,
    full: Seq<char>,
    time: int,
    stdout: Option<Seq<char>>,
    stderr: Option<Seq<char>>,
    max_len: nat,
) -> bool {
    &&& c.name@ == leaf_of(full)
    &&& c.classname is Some && c.classname->Some_0@ == module_of(full)
    &&& c.status is Failure
    &&& c.status->Failure_time == time
    &&& c.status->Failure_kind@ == "cargo test"@
    &&& c.status->Failure_message@ == "failed "@ + module_of(full) + "::"@ + leaf_of(full)
    &&& match inferred_message(stdout, stderr) {
        Some(m) => opt_bytes(c.status->Failure_system_out) == bounded(Some(m), max_len)
            && c.status->Failure_system_err is None,
        None => opt_bytes(c.status->Failure_system_out) == bounded(stdout, max_len) && opt_bytes(
            c.status->Failure_system_err,
        ) == bounded(stderr, max_len),
    }
}

impl Parser {
    pub open spec fn is_pending(&self, n: Seq<char>) -> bool {
        exists|i: int| 0 <= i < self.pending@.len() && (#[trigger] self.pending@[i]).name@ == n
    }

    /// Where the pending test named `n` stands.
    pub open spec fn pending_index(&self, n: Seq<char>) -> int {
        choose|i: int| 0 <= i < self.pending@.len() && (#[trigger] self.pending@[i]).name@ == n
    }

    pub open spec fn wf(&self) -> bool {
        &&& self.max_out_len >= MARKER_LEN
        &&& self.current is None ==> self.pending@.len() == 0
        &&& forall|i: int, j: int|
            0 <= i < j < self.pending@.len() ==> (#[trigger] self.pending@[i]).name@ != (
            #[trigger] self.pending@[j]).name@
    }

    pub open spec fn same_config(&self, other: &Parser) -> bool {
        &&& other.prefix == self.prefix
        &&& other.timestamp == self.timestamp
        &&& other.max_out_len == self.max_out_len
        &&& other.precision == self.precision
    }

    /// The error that event `e` meets in this state, if any.
    pub open spec fn error_for(&self, e: Event) -> Option<ParseError> {
        match e {
            Event::Suite { event } => match event {
                SuiteEvent::Started { .. } => if self.current is Some {
                    Some(ParseError::SuiteAlreadyStarted)
                } else if self.suite_index == usize::MAX {
                    Some(ParseError::TooManySuites)
                } else {
                    None
                },
                _ => if self.current is None {
                    Some(ParseError::SuiteEndOutsideSuite)
                } else if self.pending@.len() > 0 {
                    Some(ParseError::TestsPending)
                } else {
                    None
                },
            },
            Event::TestStringTime { event, .. } | Event::TestFloatTime { event, .. } => {
                if self.current is None {
                    Some(ParseError::TestOutsideSuite)
                } else if e.spec_duration() is None {
                    Some(ParseError::InvalidDuration)
                } else {
                    match event {
                        TestEvent::Started { name } => if self.is_pending(name@) {
                            Some(ParseError::DuplicateTest)
                        } else {
                            None
                        },
                        TestEvent::Timeout { .. } => None,
                        _ => if !self.is_pending(event.spec_name()) {
                            Some(ParseError::UnknownTest)
                        } else {
                            None
                        },
                    }
                }
            },
        }
    }

    /// The duration of a completed test: the one the event gives, else the
    /// wall-clock time since it started.
    pub open spec fn completed_time(&self, e: Event, now: int) -> int {
        match e.spec_duration() {
            Some(Some(d)) => d,
            _ => clamp_i64(
                now - self.pending@[self.pending_index(
                    e.spec_test_event().spec_name(),
                )].detail.start_time,
            ),
        }
    }

    /// The active suite of `new` is this one with one more case at its end.
    pub open spec fn suite_with(&self, new: &Parser) -> bool {
        &&& new.current is Some
        &&& new.current->Some_0.name == self.current->Some_0.name
        &&& new.current->Some_0.timestamp == self.current->Some_0.timestamp
        &&& new.current->Some_0.testcases@.len() == self.current->Some_0.testcases@.len() + 1
        &&& new.current->Some_0.testcases@.drop_last() == self.current->Some_0.testcases@
    }

    /// The state after event `e`, handled at wall-clock time `now`, when no
    /// error stops it.
    pub open spec fn next(&self, e: Event, now: int, new: &Parser) -> bool {
        &&& self.same_config(new)
        &&& match e {
            Event::Suite { event } => match event {
                SuiteEvent::Started { .. } => {
                    &&& new.current is Some
                    &&& new.current->Some_0.name@ == suite_name(self.prefix@, self.suite_index as nat)
                    &&& new.current->Some_0.timestamp == self.timestamp
                    &&& new.current->Some_0.testcases@.len() == 0
                    &&& new.suite_index == self.suite_index + 1
                    &&& new.report == self.report
                    &&& new.pending == self.pending
                },
                _ => {
                    &&& new.report.testsuites@ == self.report.testsuites@.push(self.current->Some_0)
                    &&& new.current is None
                    &&& new.suite_index == self.suite_index
                    &&& new.pending == self.pending
                },
            },
            Event::TestStringTime { event, .. } | Event::TestFloatTime { event, .. } => {
                &&& new.report == self.report
                &&& new.suite_index == self.suite_index
                &&& match event {
                    TestEvent::Started { name } => {
                        &&& new.current == self.current
                        &&& new.pending@.len() == self.pending@.len() + 1
                        &&& new.pending@.drop_last() == self.pending@
                        &&& new.pending@.last().name@ == name@
                        &&& new.pending@.last().detail.start_time == now
                    },
                    TestEvent::Timeout { .. } => new.current == self.current && new.pending
                        == self.pending,
                    _ => {
                        let n = event.spec_name();
                        let c = new.current->Some_0.testcases@.last();
                        &&& new.pending@ == self.pending@.remove(self.pending_index(n))
                        &&& self.suite_with(new)
                        &&& match event {
                            TestEvent::Passed { .. } => is_success_case(
                                c,
                                n,
                                self.completed_time(e, now),
                            ),
                            TestEvent::Failed { stdout, stderr, .. } => is_failure_case(
                                c,
                                n,
                                trunc_to(self.completed_time(e, now), self.precision.unit()),
                                opt_view(stdout),
                                opt_view(stderr),
                                self.max_out_len as nat,
                            ),
                            _ => is_skipped_case(c, n),
                        }
                    },
                }
            },
        }
    }
}

/// A passed case named by the leaf of `full`, under its module path.
fn success_case(full: &str, time: i64) -> (c: TestCase)
    ensures
        is_success_case(c, full@, time as int),
{
    let (leaf, module) = split_name(full);
    TestCase { name: leaf, classname: Some(module), status: TestStatus::Success { time } }
}

/// A skipped case, under its full name and no module path.
fn skipped_case(full: &String) -> (c: TestCase)
    ensures
        is_skipped_case(c, full@),
{
    TestCase { name: full.clone(), classname: None, status: TestStatus::Skipped }
}

/// Captured text as bytes, bounded to `max_len`.
fn bound_text(s: &Option<String>, max_len: usize) -> (r: Option<Vec<u8>>)
    requires
        max_len >= MARKER_LEN,
    ensures
        opt_bytes(r) == bounded(opt_view(*s), max_len as nat),
{
    match s {
        Some(t) => Some(truncate(t.as_str().as_bytes(), max_len)),
        None => None,
    }
}

/// A failed case, with the message inferred from its output.
fn failure_case(
    full: &str,
    time: i64,
    stdout: &Option<String>,
    stderr: &Option<String>,
    max_len: usize,
) -> (c: TestCase)
    requires
        max_len >= MARKER_LEN,
    ensures
        is_failure_case(c, full@, time as int, opt_view(*stdout), opt_view(*stderr), max_len as nat),
{
    let (leaf, module) = split_name(full);
    let message = String::from_str("failed ").concat(module.as_str()).concat("::").concat(
        leaf.as_str(),
    );
    let (system_out, system_err) = match detect_error(stdout, stderr) {
        Some(m) => (bound_text(&Some(m), max_len), None),
        None => (bound_text(stdout, max_len), bound_text(stderr, max_len)),
    };
    TestCase {
        name: leaf,
        classname: Some(module),
        status: TestStatus::Failure {
            time,
            kind: String::from_str("cargo test"),
            message,
            system_out,
            system_err,
        },
    }
}

impl Parser {
    /// A parser for one run: suites are named `<prefix> #<index>` and carry
    /// `timestamp`; captured output is bounded to `max_out_len` bytes.
    pub fn new(prefix: String, timestamp: i64, max_out_len: usize, precision: DurationPrecision) -> (r:
        Parser)
        requires
            max_out_len >= MARKER_LEN,
        ensures
            r.wf(),
            r.prefix == prefix,
            r.timestamp == timestamp,
            r.max_out_len == max_out_len,
            r.precision == precision,
            r.report.testsuites@.len() == 0,
            r.current is None,
            r.suite_index == 0,
    {
        Parser {
            prefix,
            timestamp,
            max_out_len,
            precision,
            report: Report { testsuites: Vec::new() },
            current: None,
            pending: Vec::new(),
            suite_index: 0,
        }
    }

    /// Where the pending test named `name` stands, if it is pending.
    fn find_pending(&self, name: &String) -> (r: Option<usize>)
        requires
            self.wf(),
        ensures
            r matches Some(i) ==> self.is_pending(name@) && i == self.pending_index(name@) && i
                < self.pending@.len(),
            r is None ==> !self.is_pending(name@),
    {
        let mut i: usize = 0;
        while i < self.pending.len()
            invariant
                self.wf(),
                i <= self.pending@.len(),
                forall|j: int| 0 <= j < i ==> (#[trigger] self.pending@[j]).name@ != name@,
            decreases self.pending@.len() - i,
        {
            if self.pending[i].name == *name {
                proof {
                    let k = self.pending_index(name@);
                    assert(self.pending@[i as int].name@ == name@);
                    assert(self.is_pending(name@));
                    assert(0 <= k < self.pending@.len() && self.pending@[k].name@ == name@);
                    if k != i {
                        if k < i {
                            assert(self.pending@[k].name@ != self.pending@[i as int].name@);
                        } else {
                            assert(self.pending@[i as int].name@ != self.pending@[k].name@);
                        }
                    }
                }
                return Some(i);
            }
            i = i + 1;
        }
        None
    }

    /// Applies one event, received at wall-clock time `now` (nanoseconds
    /// since the epoch). An event that breaks the nesting of suites and tests
    /// returns its error and leaves the state as it was.
    pub fn handle(&mut self, e: &Event, now: i64) -> (r: Result<(), ParseError>)
        requires
            old(self).wf(),
        ensures
            final(self).wf(),
            r matches Err(x) ==> old(self).error_for(*e) == Some(x) && *final(self) == *old(self),
            r is Ok ==> old(self).error_for(*e) is None && old(self).next(*e, now as int, final(self)),
    {
        match e {
            Event::Suite { event } => match event {
                SuiteEvent::Started { .. } => {
                    if self.current.is_some() {
                        return Err(ParseError::SuiteAlreadyStarted);
                    }
                    if self.suite_index == usize::MAX {
                        return Err(ParseError::TooManySuites);
                    }
                    let name = numbered_name(self.prefix.as_str(), self.suite_index);
                    self.current = Some(
                        TestSuite { name, timestamp: self.timestamp, testcases: Vec::new() },
                    );
                    self.suite_index = self.suite_index + 1;
                    Ok(())
                },
                _ => {
                    if self.current.is_none() {
                        return Err(ParseError::SuiteEndOutsideSuite);
                    }
                    if self.pending.len() > 0 {
                        return Err(ParseError::TestsPending);
                    }
                    let suite = self.current.take().unwrap();
                    self.report.testsuites.push(suite);
                    Ok(())
                },
            },
            Event::TestStringTime { event, .. } | Event::TestFloatTime { event, .. } => {
                self.handle_test(e, event, now)
            },
        }
    }

    fn handle_test(&mut self, e: &Event, event: &TestEvent, now: i64) -> (r: Result<(), ParseError>)
        requires
            old(self).wf(),
            e.is_test(),
            *event == e.spec_test_event(),
        ensures
            final(self).wf(),
            r matches Err(x) ==> old(self).error_for(*e) == Some(x) && *final(self) == *old(self),
            r is Ok ==> old(self).error_for(*e) is None && old(self).next(*e, now as int, final(self)),
    {
        if self.current.is_none() {
            return Err(ParseError::TestOutsideSuite);
        }
        let duration = match e.get_duration() {
            Ok(d) => d,
            Err(_) => {
                return Err(ParseError::InvalidDuration);
            },
        };
        match event {
            TestEvent::Started { name } => {
                if self.find_pending(name).is_some() {
                    return Err(ParseError::DuplicateTest);
                }
                self.pending.push(
                    PendingTest { name: name.clone(), detail: TestCaseDetail { start_time: now } },
                );
                proof {
                    assert(self.pending@.drop_last() =~= old(self).pending@);
                }
                Ok(())
            },
            TestEvent::Timeout { .. } => Ok(()),
            _ => {
                let name = event.name();
                let idx = match self.find_pending(name) {
                    Some(i) => i,
                    None => {
                        return Err(ParseError::UnknownTest);
                    },
                };
                let p = self.pending.remove(idx);
                proof {
                    assert forall|i: int, j: int|
                        0 <= i < j < self.pending@.len() implies (#[trigger] self.pending@[i]).name@
                        != (#[trigger] self.pending@[j]).name@ by {
                        let oi = if i < idx { i } else { i + 1 };
                        let oj = if j < idx { j } else { j + 1 };
                        assert(self.pending@[i] == old(self).pending@[oi]);
                        assert(self.pending@[j] == old(self).pending@[oj]);
                    }
                }
                let time = match duration {
                    Some(d) => d,
                    None => p.detail.get_duration(now),
                };
                let case = match event {
                    TestEvent::Passed { .. } => success_case(name.as_str(), time),
                    TestEvent::Failed { stdout, stderr, .. } => failure_case(
                        name.as_str(),
                        self.precision.trunc(time),
                        stdout,
                        stderr,
                        self.max_out_len,
                    ),
                    _ => skipped_case(name),
                };
                let mut suite = self.current.take().unwrap();
                suite.testcases.push(case);
                self.current = Some(suite);
                proof {
                    let ns = self.current->Some_0;
                    assert(ns.testcases@.drop_last() =~= old(self).current->Some_0.testcases@);
                }
                Ok(())
            },
        }
    }

    /// Hands the run's report over; a suite that never ended is left out.
    pub fn finish(self) -> (r: Report)
        ensures
            r == self.report,
    {
        self.report
    }
}

/// Suites are numbered by one counter for the whole run: each suite start
/// that is accepted names the new suite by the counter and raises it by one,
/// and no other event moves it, whether a suite passed or failed.
pub proof fn suite_numbering(p: Parser, e: Event, now: int, q: Parser)
    requires
        p.next(e, now, &q),
    ensures
        e matches Event::Suite { event: SuiteEvent::Started { .. } } ==> q.suite_index
            == p.suite_index + 1 && q.current->Some_0.name@ == suite_name(
            p.prefix@,
            p.suite_index as nat,
        ),
        !(e matches Event::Suite { event: SuiteEvent::Started { .. } }) ==> q.suite_index
            == p.suite_index,
{
}

} // verus!
