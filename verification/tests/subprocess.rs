use codemode::boa::GUIDANCE;
use codemode::runtime::RunRequest;
use codemode::subprocess::{
    closed_error, cpu_limits, deadline, frame, job_of, parent_outcome, pump, Fed, FromWorker,
    LineReader, ParentEnd, PendingCalls, PumpEvent, PumpStep, ToWorker, WireLimits, MAX_LINE_BYTES,
};
use codemode::{BridgeError, ExecError, Limits, Outcome, SubprocessRuntime};
use serde_json::Value;
use std::path::PathBuf;
use std::time::Duration;

fn json(text: &str) -> Value {
    serde_json::from_str(text).unwrap()
}

fn message(outcome: Outcome) -> String {
    assert_eq!(outcome.result, Value::Null);
    assert!(outcome.logs.is_empty());
    match outcome.error {
        Some(ExecError::Exception { message }) => message,
        other => panic!("expected an Exception, got {other:?}"),
    }
}

#[test]
fn limits_survive_the_wire() {
    let limits = Limits {
        timeout: Duration::from_millis(1234),
        max_loop_iterations: 1,
        max_recursion_depth: 2,
        max_stack_size: 3,
        max_backtrace_frames: 4,
        max_tool_calls: 5,
        max_output_bytes: 6,
        per_call_timeout: Duration::from_millis(7),
    };
    let wire = WireLimits::from_limits(&limits);
    assert_eq!(wire.timeout_ms, 1234);
    assert_eq!(wire.per_call_timeout_ms, 7);
    let back = wire.into_limits();
    assert_eq!(format!("{back:?}"), format!("{limits:?}"));
    let again = WireLimits::from_limits(&back);
    assert_eq!(format!("{again:?}"), format!("{wire:?}"));
}

#[test]
fn wire_times_are_whole_milliseconds() {
    let limits = Limits {
        timeout: Duration::from_micros(1999),
        per_call_timeout: Duration::MAX,
        ..Limits::default()
    };
    let wire = WireLimits::from_limits(&limits);
    assert_eq!(wire.timeout_ms, 1);
    assert_eq!(
        wire.per_call_timeout_ms,
        (Duration::MAX.as_millis() % (1u128 << 64)) as u64
    );
}

#[test]
fn jobs_carry_the_request() {
    let request = RunRequest::new("code".to_string(), vec![], Limits::default());
    let job = job_of(request, 77);
    assert_eq!(job.source, "code");
    assert!(job.servers.is_empty());
    assert_eq!(job.limits.timeout_ms, 5000);
    assert_eq!(job.max_memory_bytes, 77);
}

#[test]
fn workers_are_capped_by_default() {
    let runtime = SubprocessRuntime::with_worker(PathBuf::from("/bin/worker"));
    assert_eq!(runtime.worker(), &PathBuf::from("/bin/worker"));
    assert_eq!(runtime.memory_limit(), 512 * 1024 * 1024);
    let runtime = runtime.max_memory_bytes(256 * 1024 * 1024);
    assert_eq!(runtime.worker(), &PathBuf::from("/bin/worker"));
    assert_eq!(runtime.memory_limit(), 256 * 1024 * 1024);
    let runtime = runtime.clone();
    assert_eq!(runtime.worker(), &PathBuf::from("/bin/worker"));
    assert_eq!(runtime.memory_limit(), 256 * 1024 * 1024);
    for honoured in [true, false] {
        let caps = runtime.capabilities(honoured);
        assert_eq!(caps.hard_memory_cap, honoured);
        assert_eq!(caps.usage_guidance, GUIDANCE);
        assert_eq!(caps.language, "javascript");
    }
}

#[test]
fn deadline_leaves_a_margin() {
    assert_eq!(
        deadline(Duration::from_millis(500)),
        Some(Duration::from_millis(2500))
    );
    assert_eq!(deadline(Duration::MAX), None);
    assert_eq!(
        deadline(Duration::MAX - Duration::from_secs(2)),
        Some(Duration::MAX)
    );
}

#[test]
fn cpu_limit_is_past_the_timeout() {
    assert_eq!(cpu_limits(0), (3, 4));
    assert_eq!(cpu_limits(999), (3, 4));
    assert_eq!(cpu_limits(1000), (3, 4));
    assert_eq!(cpu_limits(5999), (7, 8));
    assert_eq!(
        cpu_limits(u64::MAX),
        (u64::MAX / 1000 + 2, u64::MAX / 1000 + 3)
    );
}

#[test]
fn every_end_has_its_outcome() {
    let reported = parent_outcome(ParentEnd::Reported(Outcome::ok(json("7"), vec![])));
    assert_eq!(reported.result, json("7"));
    assert!(reported.error.is_none());
    assert!(matches!(
        parent_outcome(ParentEnd::TimedOut).error,
        Some(ExecError::Timeout)
    ));
    let reason = || "why".to_string();
    let cases = [
        (ParentEnd::NotSpawned(reason()), "could not spawn worker: why"),
        (ParentEnd::NotPiped, "worker stdio was not piped"),
        (ParentEnd::NotEncoded(reason()), "could not encode job: why"),
        (
            ParentEnd::NotSent(reason()),
            "could not send job to worker: why",
        ),
        (ParentEnd::Broken(reason()), "why"),
    ];
    for (end, expected) in cases {
        assert_eq!(message(parent_outcome(end)), expected);
    }
}

#[test]
fn the_parent_services_its_worker() {
    let call = PumpEvent::Received(FromWorker::Call {
        id: 4,
        server: "math".to_string(),
        tool: "add".to_string(),
        args: json("[1]"),
    });
    assert!(matches!(
        pump(call),
        PumpStep::Serve { id: 4, server, tool, args }
            if server == "math" && tool == "add" && args == json("[1]")
    ));
    assert!(matches!(
        pump(PumpEvent::Answered { id: 4, result: Ok(json("42")) }),
        PumpStep::Reply(ToWorker::Answer { id: 4, value }) if value == json("42")
    ));
    assert!(matches!(
        pump(PumpEvent::Answered { id: 5, result: Err(BridgeError::BudgetExceeded) }),
        PumpStep::Reply(ToWorker::Failure { id: 5, message }) if message == "tool-call budget exceeded"
    ));
    let outcome = Outcome::ok(json("1"), vec!["log".to_string()]);
    assert!(matches!(
        pump(PumpEvent::Received(FromWorker::Done { outcome })),
        PumpStep::End(ParentEnd::Reported(o)) if o.result == json("1") && o.logs == ["log"]
    ));
    let broken = [
        (
            PumpEvent::Closed,
            "worker exited before producing a result (killed by a resource limit?)",
        ),
        (
            PumpEvent::Unreadable("io".to_string()),
            "reading from worker: io",
        ),
        (PumpEvent::Malformed("bad".to_string()), "bad"),
        (
            PumpEvent::Unwritable("pipe".to_string()),
            "writing to worker: pipe",
        ),
    ];
    for (event, expected) in broken {
        assert!(
            matches!(pump(event), PumpStep::End(ParentEnd::Broken(m)) if m == expected),
            "{expected}"
        );
    }
}

#[test]
fn answers_find_their_calls_in_any_order() {
    let mut calls = PendingCalls::new();
    let ids: Vec<u64> = (0..3).map(|_| calls.begin().unwrap()).collect();
    assert_eq!(ids, [0, 1, 2]);
    // Answers come in any order, each to its own call.
    let (id, answer) = calls
        .settle(ToWorker::Answer {
            id: 2,
            value: json("\"c\""),
        })
        .unwrap();
    assert_eq!((id, answer.unwrap()), (2, json("\"c\"")));
    let (id, answer) = calls
        .settle(ToWorker::Failure {
            id: 0,
            message: "no".to_string(),
        })
        .unwrap();
    assert_eq!((id, answer.unwrap_err().message()), (0, "no".to_string()));
    // A second answer, or one to a call that was never made, is dropped.
    assert!(calls
        .settle(ToWorker::Answer {
            id: 2,
            value: json("1")
        })
        .is_none());
    assert!(calls
        .settle(ToWorker::Answer {
            id: 9,
            value: json("1")
        })
        .is_none());
    assert_eq!(calls.begin().unwrap(), 3);
    assert_eq!(calls.close(), [1, 3]);
    assert!(calls.close().is_empty());
    assert_eq!(closed_error().message(), "parent closed the connection");
}

fn read(input: &[u8], cut: usize, max: usize) -> (Vec<String>, &'static str) {
    let mut reader = LineReader::new(max);
    let mut lines = Vec::new();
    let mut rest = input;
    loop {
        let chunk = &rest[..cut.min(rest.len())];
        let (used, fed) = reader.feed(chunk);
        rest = &rest[used..];
        match fed {
            Fed::Line(line) => lines.push(line),
            Fed::More => {}
            Fed::TooLong => return (lines, "too long"),
            Fed::End => return (lines, "end"),
        }
    }
}

#[test]
fn chunking_makes_no_difference() {
    let input = "one\n\ntwö\nthree".as_bytes();
    for cut in 1..=input.len() {
        let (lines, end) = read(input, cut, 5);
        assert_eq!(lines, ["one", "", "twö"]);
        assert_eq!(end, "end");
        let (lines, end) = read(input, cut, 4);
        assert_eq!(lines, ["one", "", "twö"]);
        assert_eq!(end, "too long");
        let (lines, end) = read(input, cut, 3);
        assert_eq!(lines, ["one", ""]);
        assert_eq!(end, "too long");
    }
}

#[test]
fn malformed_bytes_are_replaced() {
    let (lines, _) = read(b"a\xffb\n", 2, 10);
    assert_eq!(lines, ["a\u{fffd}b"]);
}

#[test]
fn messages_read_back() {
    let message = r#"{"kind":"call","args":{"text":"äöü ☃ \n"}}"#;
    let mut bytes = frame(message);
    assert_eq!(*bytes.last().unwrap(), b'\n');
    bytes.extend(frame("next"));
    for cut in [1, 7, 1000] {
        let (lines, end) = read(&bytes, cut, MAX_LINE_BYTES);
        assert_eq!(lines, [message, "next"]);
        assert_eq!(end, "end");
    }
}

#[test]
fn answers_cross_the_wire() {
    let results = [
        Ok(json(r#"{ "n": 7 }"#)),
        Err(BridgeError::BudgetExceeded),
        Err(BridgeError::Denied {
            server: "a".to_string(),
            tool: "b".to_string(),
        }),
        Err(BridgeError::Call("no".to_string())),
    ];
    let mut calls = PendingCalls::new();
    for result in results {
        let expected = result.clone().map_err(|e| e.message());
        let id = calls.begin().unwrap();
        let PumpStep::Reply(reply) = pump(PumpEvent::Answered { id, result }) else {
            panic!("expected a reply");
        };
        let (settled, answer) = calls.settle(reply).unwrap();
        assert_eq!(settled, id);
        assert_eq!(answer.map_err(|e| e.message()), expected);
    }
}

#[test]
fn calls_fail_once_the_parent_is_gone() {
    let mut calls = PendingCalls::new();
    assert_eq!(calls.begin().unwrap(), 0);
    assert_eq!(calls.close(), [0]);
    for _ in 0..2 {
        let error = calls.begin().unwrap_err();
        assert!(matches!(&error, BridgeError::Call(m) if m == "parent closed the connection"));
    }
    assert!(calls.close().is_empty());
    let late = ToWorker::Answer {
        id: 0,
        value: json("1"),
    };
    assert!(calls.settle(late).is_none());
}

#[test]
fn unreadable_answer_leaves_later_calls_alone() {
    let mut calls = PendingCalls::new();
    for id in 0..4 {
        assert_eq!(calls.begin().unwrap(), id);
    }
    // Where the line says which call it was for, only that one is given up.
    assert_eq!(calls.abandon(Some(1)), [1]);
    assert!(calls.abandon(Some(1)).is_empty());
    assert!(calls.abandon(Some(9)).is_empty());
    let answer = ToWorker::Answer {
        id: 2,
        value: json("2"),
    };
    assert!(calls.settle(answer).is_some());
    // Where it does not, all that wait are.
    assert_eq!(calls.abandon(None), [0, 3]);
    assert!(calls.abandon(None).is_empty());
    // Later calls are served as before.
    assert_eq!(calls.begin().unwrap(), 4);
    let answer = ToWorker::Answer {
        id: 4,
        value: json("4"),
    };
    assert!(matches!(calls.settle(answer), Some((4, Ok(v))) if v == json("4")));
}

#[test]
fn overlong_line_is_left_where_it_ends() {
    let mut reader = LineReader::new(3);
    assert!(matches!(reader.feed(b"abcd\nx"), (0, Fed::TooLong)));
    let mut reader = LineReader::new(3);
    assert!(matches!(reader.feed(b"abcd"), (4, Fed::TooLong)));
    let mut reader = LineReader::new(3);
    assert!(matches!(reader.feed(b"ab"), (2, Fed::More)));
    assert!(matches!(reader.feed(b"cd\n"), (0, Fed::TooLong)));
}
