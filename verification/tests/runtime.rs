use codemode::runtime::{settle, withheld_detail, Guard, Reply};
use codemode::{AllowList, BridgeError, Error, Limits, RunRequest};
use serde_json::Value;

fn json(text: &str) -> Value {
    serde_json::from_str(text).unwrap()
}

fn strings(list: &[&str]) -> Vec<String> {
    list.iter().map(|s| s.to_string()).collect()
}

fn demo_echo() -> AllowList {
    let mut allow = AllowList::default();
    allow.allow("demo".to_string(), strings(&["echo"]));
    allow
}

#[test]
fn allowlist_denies_by_default() {
    let mut allow = AllowList::default();
    assert!(!allow.allows("demo", "echo"));
    assert!(!allow.server_allowed("demo"));
    allow.allow("demo".to_string(), strings(&["echo"]));
    assert!(allow.allows("demo", "echo"));
    assert!(!allow.allows("demo", "secret"));
    assert!(!allow.allows("other", "echo"));
    assert!(allow.server_allowed("demo"));
    allow.allow_all("other".to_string());
    assert!(allow.allows("other", "anything"));
    allow.allow("empty".to_string(), vec![]);
    assert!(allow.server_allowed("empty"));
    assert!(!allow.allows("empty", ""));
}

#[test]
fn allowlist_keeps_the_last_word() {
    let mut allow = AllowList::default();
    allow.allow_all("demo".to_string());
    allow.allow("demo".to_string(), strings(&["echo"]));
    assert!(!allow.allows("demo", "secret"));
    allow.allow("demo".to_string(), strings(&["secret"]));
    assert!(!allow.allows("demo", "echo"));
    assert!(allow.allows("demo", "secret"));
    allow.allow_all("demo".to_string());
    assert!(allow.allows("demo", "echo"));
}

#[test]
fn guard_denies_a_non_exposed_tool() {
    let mut guard = Guard::new(demo_echo(), 50);
    let error = guard.enter("demo", "secret").unwrap_err();
    assert!(matches!(&error, BridgeError::Denied { server, tool } if server == "demo" && tool == "secret"));
    assert!(error.message().contains("not exposed"), "{error:?}");
    assert_eq!(
        error.message(),
        "tool 'demo/secret' is not exposed for this run"
    );
}

#[test]
fn tool_call_budget_is_enforced() {
    let mut guard = Guard::new(demo_echo(), 2);
    assert!(guard.enter("demo", "echo").is_ok());
    // A denied call takes nothing from the budget.
    assert!(guard.enter("demo", "secret").is_err());
    assert!(guard.enter("demo", "echo").is_ok());
    for _ in 0..3 {
        let error = guard.enter("demo", "echo").unwrap_err();
        assert!(matches!(error, BridgeError::BudgetExceeded));
        assert_eq!(error.message(), "tool-call budget exceeded");
    }
    assert!(Guard::new(demo_echo(), 0).enter("demo", "echo").is_err());
}

fn refused(reply: Reply, max: usize) -> String {
    settle(reply, max).unwrap_err().message()
}

#[test]
fn timed_out_call_is_told_so() {
    assert_eq!(refused(Reply::TimedOut, 100), "tool call timed out");
    let after = settle(Reply::Answered(json("2")), 100).unwrap();
    assert_eq!(after, json("2"));
}

#[test]
fn oversized_tool_result_is_rejected() {
    let blob = || Value::String("x".repeat(10_000));
    assert_eq!(refused(Reply::Answered(blob()), 100), "tool result too large");
    assert_eq!(
        refused(Reply::Answered(blob()), 10_001),
        "tool result too large"
    );
    assert_eq!(settle(Reply::Answered(blob()), 10_002).unwrap(), blob());
}

fn nested(levels: usize) -> Value {
    let mut v = json("0");
    for _ in 0..levels {
        let mut map = serde_json::Map::new();
        map.insert("n".to_string(), v);
        v = Value::Object(map);
    }
    v
}

#[test]
fn deep_tool_result_is_rejected_cleanly_not_hung() {
    let message = refused(Reply::Answered(nested(150)), 1_000_000);
    assert!(message.contains("deep"), "{message}");
    assert!(settle(Reply::Answered(nested(120)), 1_000_000).is_ok());
    assert!(settle(Reply::Answered(nested(121)), 1_000_000).is_err());
    let mut list = json("[]");
    for _ in 0..119 {
        list = Value::Array(vec![list]);
    }
    assert!(settle(Reply::Answered(list.clone()), 1_000_000).is_ok());
    assert!(settle(Reply::Answered(Value::Array(vec![list])), 1_000_000).is_err());
}

#[test]
fn delivered_values_can_be_read_back_inside_a_message() {
    let value = settle(Reply::Answered(nested(120)), 1_000_000).unwrap();
    let text = format!(r#"{{"kind":"done","outcome":{{"result":{value},"logs":[]}}}}"#);
    assert!(serde_json::from_str::<Value>(&text).is_ok());
}

#[test]
fn own_errors_are_shown_and_internal_ones_are_not() {
    let errors = [
        Error::Config("/etc/secret".to_string()),
        Error::UnknownServer("s".to_string()),
        Error::Spawn {
            server: "s".to_string(),
            message: "/bin/x".to_string(),
        },
        Error::Mcp("token".to_string()),
        Error::Island("no threads".to_string()),
        Error::IslandGone,
    ];
    for error in errors {
        assert_eq!(withheld_detail(&error), Some(error.message()));
        assert_eq!(refused(Reply::Failed(error), 100), "tool call failed");
    }
    let own = Error::Tool("no such row".to_string());
    assert_eq!(withheld_detail(&own), None);
    assert_eq!(refused(Reply::Failed(own), 100), "no such row");
}

#[test]
fn errors_are_rendered() {
    let cases = [
        (Error::Config("x".to_string()), "configuration error: x"),
        (Error::UnknownServer("x".to_string()), "unknown server: x"),
        (
            Error::Spawn {
                server: "fs".to_string(),
                message: "gone".to_string(),
            },
            "failed to start MCP server 'fs': gone",
        ),
        (Error::Mcp("x".to_string()), "MCP error: x"),
        (Error::Tool("x".to_string()), "tool error: x"),
        (
            Error::Island("x".to_string()),
            "could not start the engine island: x",
        ),
        (Error::IslandGone, "the engine island stopped unexpectedly"),
    ];
    for (error, expected) in cases {
        assert_eq!(error.message(), expected);
    }
}

#[test]
fn requests_hold_what_they_are_given() {
    let request = RunRequest::new("code".to_string(), vec![], Limits::default());
    assert_eq!(request.source, "code");
    assert!(request.servers.is_empty());
    assert_eq!(request.limits.max_tool_calls, 50);
}

#[test]
fn copied_allowlist_allows_the_same() {
    let mut allow = demo_echo();
    allow.allow_all("other".to_string());
    let copy = allow.clone();
    // The copy stands on its own.
    allow.allow("other".to_string(), vec![]);
    assert!(copy.allows("demo", "echo"));
    assert!(!copy.allows("demo", "secret"));
    assert!(copy.allows("other", "anything"));
    assert!(!allow.allows("other", "anything"));
}
