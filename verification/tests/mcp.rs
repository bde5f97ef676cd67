use codemode::mcp::{call_arguments, map_result, Launches, ToolReply};
use codemode::{Error, ServerConfig};
use rmcp::model::{CallToolResult, Content};
use serde_json::Value;

fn json(text: &str) -> Value {
    serde_json::from_str(text).unwrap()
}

fn reply(result: CallToolResult) -> ToolReply {
    ToolReply {
        content: result
            .content
            .iter()
            .map(|c| c.as_text().map(|t| t.text.clone()))
            .collect(),
        is_error: result.is_error,
        structured_content: result.structured_content,
    }
}

#[test]
fn prefers_structured_content() {
    let result = CallToolResult::structured(json(r#"{ "answer": 42 }"#));
    assert_eq!(
        map_result(reply(result)).unwrap(),
        json(r#"{ "answer": 42 }"#)
    );
}

#[test]
fn joins_text_content_when_no_structured() {
    let result = CallToolResult::success(vec![Content::text("hello"), Content::text("world")]);
    assert_eq!(
        map_result(reply(result)).unwrap(),
        Value::String("hello\nworld".to_string())
    );
}

#[test]
fn is_error_surfaces_as_err() {
    let result = CallToolResult::error(vec![Content::text("boom")]);
    assert!(matches!(map_result(reply(result)), Err(Error::Mcp(m)) if m == "boom"));
}

#[test]
fn flagged_structured_content_is_an_error_too() {
    let result = CallToolResult::structured_error(json(r#"{ "code": [7, "x"] }"#));
    assert!(
        matches!(map_result(reply(result)), Err(Error::Mcp(m)) if m == r#"{"code":[7,"x"]}"#)
    );
}

#[test]
fn other_blocks_are_left_out() {
    let blocks = vec![None, Some("a".to_string()), None, Some(String::new()), None];
    let result = map_result(ToolReply {
        structured_content: None,
        content: blocks,
        is_error: Some(false),
    });
    assert_eq!(result.unwrap(), Value::String("a\n".to_string()));
    let empty = map_result(ToolReply {
        structured_content: None,
        content: vec![],
        is_error: None,
    });
    assert_eq!(empty.unwrap(), Value::String(String::new()));
}

#[test]
fn only_objects_are_handed_over() {
    let args = call_arguments(json(r#"{ "b": 1, "a": [2] }"#));
    assert_eq!(Value::Object(args), json(r#"{ "b": 1, "a": [2] }"#));
    for other in ["null", "[1]", "\"x\"", "7", "true"] {
        assert!(call_arguments(json(other)).is_empty());
    }
}

#[test]
fn launches_are_found_by_name() {
    let server = |name: &str, command: &str| {
        ServerConfig::stdio(name.to_string(), command.to_string(), vec![])
    };
    let launches = Launches::new(vec![server("a", "x"), server("b", "y"), server("a", "z")]);
    assert_eq!(launches.find("a").unwrap().command, "x");
    assert_eq!(launches.find("b").unwrap().command, "y");
    assert!(matches!(launches.find("c"), Err(Error::UnknownServer(s)) if s == "c"));
    assert_eq!(launches.server_names(), ["a", "b", "a"]);
    let infos = launches.infos();
    assert_eq!(infos.len(), 3);
    assert_eq!(infos[1].name, "b");
    assert_eq!(infos[1].description, None);
}
