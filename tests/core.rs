use cargo2junit::duration::{parse_exec_time, parse_millis, parse_seconds, DurationPrecision, TestCaseDetail};
use cargo2junit::error::ParseError;
use cargo2junit::event::{Event, SuiteEvent, SuiteResults, TestEvent};
use cargo2junit::failure::{detect_error, trim};
use cargo2junit::machine::{decimal_text, Parser};
use cargo2junit::names::split_name;
use cargo2junit::report::TestStatus;
use cargo2junit::text::{is_event_line, repair_escapes, truncate};

fn suite_started() -> Event {
    Event::Suite { event: SuiteEvent::Started { test_count: 1 } }
}

fn suite_ok() -> Event {
    Event::Suite { event: SuiteEvent::Passed { results: SuiteResults { passed: 1, failed: 0 } } }
}

fn suite_failed() -> Event {
    Event::Suite { event: SuiteEvent::Failed { results: SuiteResults { passed: 0, failed: 1 } } }
}

fn test(event: TestEvent) -> Event {
    Event::TestStringTime { event, duration: None, exec_time: None }
}

fn started(name: &str) -> Event {
    test(TestEvent::Started { name: name.to_string() })
}

fn passed(name: &str) -> Event {
    test(TestEvent::Passed { name: name.to_string() })
}

fn parser(max_len: usize) -> Parser {
    Parser::new("cargo test".to_string(), 42, max_len, DurationPrecision::LiteralSeconds)
}

#[test]
fn error_on_garbage() {
    let line = "{garbage}";
    assert!(is_event_line(line));
    assert!(serde_json::from_str::<serde_json::Value>(line).is_err());
    let repaired = repair_escapes(line);
    assert!(serde_json::from_str::<serde_json::Value>(&repaired).is_err());
}

#[test]
fn truncate_keeps_short_text() {
    assert_eq!(truncate(b"hello", 5), b"hello".to_vec());
    assert_eq!(truncate(b"", 0), Vec::<u8>::new());
}

#[test]
fn truncate_cuts_long_text() {
    let text: Vec<u8> = (0..100u8).map(|i| b'a' + i % 26).collect();
    let r = truncate(&text, 27);
    let mut expected = text[..5].to_vec();
    expected.extend_from_slice(b"\n[...TRUNCATED...]\n");
    expected.extend_from_slice(&text[95..]);
    assert_eq!(r, expected);
    assert_eq!(r.len(), 29);
    assert_eq!(truncate(&text, 28).len(), 29);
    assert_eq!(truncate(&text, 17).len(), 19);
}

#[test]
fn split_module_and_leaf() {
    assert_eq!(split_name("m::t"), ("t".to_string(), "m".to_string()));
    assert_eq!(split_name("a::b::c"), ("c".to_string(), "a::b".to_string()));
    assert_eq!(split_name("plain"), ("plain".to_string(), String::new()));
    assert_eq!(split_name(":::"), (":".to_string(), String::new()));
    assert_eq!(split_name("::x"), ("x".to_string(), String::new()));
}

#[test]
fn split_recombines_names() {
    for name in ["a::b", "x::y::z", "tests::error_on_garbage", "a::::b"] {
        let (leaf, module) = split_name(name);
        assert_eq!(format!("{}::{}", module, leaf), name);
    }
}

#[test]
fn exec_time_string_in_nanoseconds() {
    assert_eq!(parse_exec_time("2.5s"), Some(2_500_000_000));
    assert_eq!(parse_exec_time("0.072s"), Some(72_000_000));
    assert_eq!(parse_exec_time("2.5"), None);
    assert_eq!(parse_exec_time("s"), None);
    assert_eq!(parse_exec_time("1e-3s"), Some(1_000_000));
    assert_eq!(parse_exec_time(".5s"), Some(500_000_000));
    assert_eq!(parse_exec_time("5.s"), Some(5_000_000_000));
    assert_eq!(parse_exec_time("+1s"), Some(1_000_000_000));
    assert_eq!(parse_exec_time("1.0000000019s"), Some(1_000_000_001));
}

#[test]
fn numbers_scale_exactly() {
    assert_eq!(parse_millis("0.213"), Some(213_000));
    assert_eq!(parse_millis("-1.5"), Some(-1_500_000));
    assert_eq!(parse_millis("12"), Some(12_000_000));
    assert_eq!(parse_millis("1."), Some(1_000_000));
    assert_eq!(parse_millis(".5"), Some(500_000));
    assert_eq!(parse_millis("1e3"), Some(1_000_000_000));
    assert_eq!(parse_millis("2.5E-2"), Some(25_000));
    assert_eq!(parse_millis("123456789012345678901234567890e-25"), Some(12_345_678_901));
    assert_eq!(parse_millis("."), None);
    assert_eq!(parse_millis("e5"), None);
    assert_eq!(parse_millis("1e"), None);
    assert_eq!(parse_millis("1e+"), None);
    assert_eq!(parse_millis("1.2.3"), None);
    assert_eq!(parse_millis(""), None);
    assert_eq!(parse_millis("inf5"), None);
    assert_eq!(parse_seconds("100000000000"), Some(i64::MAX));
    assert_eq!(parse_seconds("-100000000000"), Some(i64::MIN));
    assert_eq!(parse_seconds("inf"), Some(i64::MAX));
    assert_eq!(parse_seconds("-Infinity"), Some(i64::MIN));
    assert_eq!(parse_seconds("NaN"), Some(0));
    assert_eq!(parse_seconds("1e999999999999999999999999999"), Some(i64::MAX));
    assert_eq!(parse_seconds("-1e999999999999999999999999999"), Some(i64::MIN));
    assert_eq!(parse_seconds("0e999999999999999999999999999"), Some(0));
    assert_eq!(parse_seconds("7e-999999999999999999999999999"), Some(0));
}

#[test]
fn exec_time_wins_over_milliseconds() {
    let e = Event::TestStringTime {
        event: TestEvent::Passed { name: "t".to_string() },
        duration: Some("7".to_string()),
        exec_time: Some("2.5s".to_string()),
    };
    assert_eq!(e.get_duration(), Ok(Some(2_500_000_000)));
    let f = Event::TestFloatTime {
        event: TestEvent::Passed { name: "t".to_string() },
        duration: Some("7".to_string()),
        exec_time: Some("0.25".to_string()),
    };
    assert_eq!(f.get_duration(), Ok(Some(250_000_000)));
    let g = Event::TestFloatTime {
        event: TestEvent::Passed { name: "t".to_string() },
        duration: Some("7".to_string()),
        exec_time: None,
    };
    assert_eq!(g.get_duration(), Ok(Some(7_000_000)));
    assert_eq!(passed("t").get_duration(), Ok(None));
}

#[test]
fn decimal_digits() {
    assert_eq!(decimal_text(0), "0");
    assert_eq!(decimal_text(7), "7");
    assert_eq!(decimal_text(1030), "1030");
    assert_eq!(decimal_text(usize::MAX), usize::MAX.to_string());
}

#[test]
fn precision_truncates_toward_zero() {
    assert_eq!(DurationPrecision::MilliSeconds.trunc(1_234_567), 1_234_000);
    assert_eq!(DurationPrecision::LiteralSeconds.trunc(2_500_000_000), 2_000_000_000);
    assert_eq!(DurationPrecision::MilliSeconds.trunc(-1_500), -1_000);
    assert_eq!(DurationPrecision::LiteralSeconds.trunc(999_999_999), 0);
}

#[test]
fn elapsed_wall_clock() {
    let d = TestCaseDetail { start_time: 3 };
    assert_eq!(d.get_duration(10), 7);
    let far = TestCaseDetail { start_time: i64::MIN };
    assert_eq!(far.get_duration(i64::MAX), i64::MAX);
}

#[test]
fn error_message_from_stderr() {
    let r = detect_error(&Some("out".to_string()), &Some("  bad thing \n".to_string()));
    assert_eq!(r, Some("  bad thing \n".to_string()));
}

#[test]
fn error_message_guessed_from_stdout() {
    let out = "running\nError: boom\nmore".to_string();
    assert_eq!(detect_error(&Some(out), &Some(String::new())), Some("Error: boom".to_string()));
    let two = "error: first\nnoise\nERROR: second \r\nend".to_string();
    assert_eq!(detect_error(&Some(two), &None), Some("ERROR: second".to_string()));
    assert_eq!(detect_error(&Some("no errors here\nError:".to_string()), &Some(" \t".to_string())), None);
    assert_eq!(detect_error(&None, &None), None);
}

#[test]
fn trims_both_ends() {
    assert_eq!(trim("  a b \n"), "a b".to_string());
    assert_eq!(trim(" \t "), String::new());
}

#[test]
fn line_filter() {
    assert!(is_event_line("{ \"type\": \"suite\" }"));
    assert!(is_event_line("   \t{"));
    assert!(!is_event_line("   Compiling foo v0.1.0"));
    assert!(!is_event_line(""));
    assert!(!is_event_line("  "));
}

#[test]
fn backslash_repair() {
    let line = r#"{"type":"test","event":"started","name":"C:\q"}"#;
    assert!(serde_json::from_str::<serde_json::Value>(line).is_err());
    let repaired = repair_escapes(line);
    assert_eq!(repaired, r#"{"type":"test","event":"started","name":"C:\\q"}"#);
    let v: serde_json::Value = serde_json::from_str(&repaired).unwrap();
    assert_eq!(v["name"].as_str(), Some("C:\\q"));
}

#[test]
fn single_passing_test() {
    let mut p = parser(65536);
    assert_eq!(p.handle(&suite_started(), 0), Ok(()));
    assert_eq!(p.handle(&started("m::t"), 100), Ok(()));
    assert_eq!(p.handle(&passed("m::t"), 350), Ok(()));
    assert_eq!(p.handle(&suite_ok(), 400), Ok(()));
    let report = p.finish();
    assert_eq!(report.testsuites.len(), 1);
    let suite = &report.testsuites[0];
    assert_eq!(suite.name, "cargo test #0");
    assert_eq!(suite.timestamp, 42);
    assert_eq!(suite.testcases.len(), 1);
    let case = &suite.testcases[0];
    assert_eq!(case.name, "t");
    assert_eq!(case.classname, Some("m".to_string()));
    assert!(case.is_success());
    assert_eq!(case.time(), 250);
}

#[test]
fn suite_end_with_pending_test_fails() {
    let mut p = parser(65536);
    assert_eq!(p.handle(&suite_started(), 0), Ok(()));
    assert_eq!(p.handle(&started("m::t"), 1), Ok(()));
    assert_eq!(p.handle(&suite_ok(), 2), Err(ParseError::TestsPending));
    assert_eq!(p.pending.len(), 1);
}

#[test]
fn suites_numbered_in_order() {
    let mut p = parser(65536);
    assert_eq!(p.handle(&suite_started(), 0), Ok(()));
    assert_eq!(p.handle(&suite_failed(), 0), Ok(()));
    assert_eq!(p.handle(&suite_started(), 0), Ok(()));
    assert_eq!(p.handle(&suite_ok(), 0), Ok(()));
    assert_eq!(p.handle(&suite_started(), 0), Ok(()));
    assert_eq!(p.handle(&suite_failed(), 0), Ok(()));
    assert_eq!(p.suite_index, 3);
    let report = p.finish();
    let names: Vec<&str> = report.testsuites.iter().map(|s| s.name.as_str()).collect();
    assert_eq!(names, vec!["cargo test #0", "cargo test #1", "cargo test #2"]);
}

#[test]
fn protocol_violations() {
    let mut p = parser(65536);
    assert_eq!(p.handle(&passed("x"), 0), Err(ParseError::TestOutsideSuite));
    assert_eq!(p.handle(&suite_ok(), 0), Err(ParseError::SuiteEndOutsideSuite));
    assert_eq!(p.handle(&suite_started(), 0), Ok(()));
    assert_eq!(p.handle(&suite_started(), 0), Err(ParseError::SuiteAlreadyStarted));
    assert_eq!(p.handle(&passed("x"), 0), Err(ParseError::UnknownTest));
    assert_eq!(p.handle(&started("x"), 0), Ok(()));
    assert_eq!(p.handle(&started("x"), 0), Err(ParseError::DuplicateTest));
    let bad = Event::TestStringTime {
        event: TestEvent::Passed { name: "x".to_string() },
        duration: None,
        exec_time: Some("12".to_string()),
    };
    assert_eq!(p.handle(&bad, 0), Err(ParseError::InvalidDuration));
    assert_eq!(p.pending.len(), 1);
}

#[test]
fn timeout_changes_nothing() {
    let mut p = parser(65536);
    assert_eq!(p.handle(&suite_started(), 0), Ok(()));
    assert_eq!(p.handle(&started("slow"), 0), Ok(()));
    assert_eq!(p.handle(&test(TestEvent::Timeout { name: "slow".to_string() }), 5), Ok(()));
    assert_eq!(p.pending.len(), 1);
    assert_eq!(p.handle(&passed("slow"), 9), Ok(()));
    assert_eq!(p.handle(&suite_ok(), 9), Ok(()));
    assert!(p.finish().testsuites[0].testcases[0].is_success());
}

#[test]
fn ignored_test_is_skipped_under_full_name() {
    let mut p = parser(65536);
    assert_eq!(p.handle(&suite_started(), 0), Ok(()));
    assert_eq!(p.handle(&started("a::b"), 0), Ok(()));
    assert_eq!(p.handle(&test(TestEvent::Ignored { name: "a::b".to_string() }), 0), Ok(()));
    let case = &p.current.as_ref().unwrap().testcases[0];
    assert_eq!(case.name, "a::b");
    assert_eq!(case.classname, None);
    assert_eq!(case.status, TestStatus::Skipped);
}

#[test]
fn failed_test_with_inferred_message() {
    let mut p = parser(65536);
    assert_eq!(p.handle(&suite_started(), 0), Ok(()));
    assert_eq!(p.handle(&started("m::t"), 0), Ok(()));
    let failed = Event::TestStringTime {
        event: TestEvent::Failed {
            name: "m::t".to_string(),
            stdout: Some("...\nError: boom\n...".to_string()),
            stderr: Some(String::new()),
        },
        duration: None,
        exec_time: Some("2.5s".to_string()),
    };
    assert_eq!(p.handle(&failed, 0), Ok(()));
    let case = &p.current.as_ref().unwrap().testcases[0];
    assert_eq!(case.name, "t");
    assert_eq!(case.classname, Some("m".to_string()));
    assert_eq!(
        case.status,
        TestStatus::Failure {
            time: 2_000_000_000,
            kind: "cargo test".to_string(),
            message: "failed m::t".to_string(),
            system_out: Some(b"Error: boom".to_vec()),
            system_err: None,
        }
    );
}

#[test]
fn failed_test_keeps_bounded_output() {
    let mut p = Parser::new("s".to_string(), 0, 21, DurationPrecision::MilliSeconds);
    assert_eq!(p.handle(&suite_started(), 0), Ok(()));
    assert_eq!(p.handle(&started("t"), 1_000), Ok(()));
    let failed = test(TestEvent::Failed {
        name: "t".to_string(),
        stdout: Some("0123456789abcdefghijklmnop".to_string()),
        stderr: None,
    });
    assert_eq!(p.handle(&failed, 5_001_999), Ok(()));
    let case = &p.current.as_ref().unwrap().testcases[0];
    assert_eq!(
        case.status,
        TestStatus::Failure {
            time: 5_000_000,
            kind: "cargo test".to_string(),
            message: "failed ::t".to_string(),
            system_out: Some(b"01\n[...TRUNCATED...]\nop".to_vec()),
            system_err: None,
        }
    );
}
