use codemode::server::{dispatch_tool, listing_text, tool_definitions, Request};
use codemode::{Error, ServerInfo, ToolInfo};
use serde_json::Value;

fn json(text: &str) -> Value {
    serde_json::from_str(text).unwrap()
}

fn args(text: &str) -> serde_json::Map<String, Value> {
    json(text).as_object().cloned().unwrap_or_default()
}

#[test]
fn tool_definitions_advertise_the_three_tools_with_guidance() {
    let defs = tool_definitions("GUIDANCE TEXT");
    let names: Vec<String> = defs.iter().map(|t| t.name.to_string()).collect();
    assert_eq!(names, ["discover", "find", "execute"]);
    let execute = defs.iter().find(|t| t.name == "execute").unwrap();
    assert_eq!(execute.description.as_deref(), Some("GUIDANCE TEXT"));
    assert_eq!(
        defs[0].input_schema,
        json(r#"{ "type": "object", "properties": {} }"#)
    );
    assert_eq!(
        defs[1].input_schema,
        json(
            r#"{ "type": "object", "properties": { "server": { "type": "string" } }, "required": ["server"] }"#
        )
    );
    assert_eq!(
        defs[2].input_schema,
        json(
            r#"{ "type": "object", "properties": { "code": { "type": "string" } }, "required": ["code"] }"#
        )
    );
    assert_eq!(
        defs[0].description.as_deref(),
        Some("List the MCP servers available to your code.")
    );
    assert_eq!(
        defs[1].description.as_deref(),
        Some("List one server's tools and their input schemas.")
    );
}

#[test]
fn discover_requests_are_recognised() {
    assert!(matches!(
        dispatch_tool("discover", &args("{}")),
        Ok(Request::Discover)
    ));
}

#[test]
fn find_requests_name_their_server() {
    assert!(
        matches!(dispatch_tool("find", &args(r#"{ "server": "math" }"#)), Ok(Request::Find(s)) if s == "math")
    );
}

#[test]
fn dispatch_find_without_server_is_invalid_params() {
    for given in ["{}", r#"{ "server": 7 }"#, r#"{ "code": "x" }"#] {
        let err = dispatch_tool("find", &args(given)).unwrap_err();
        assert!(err.contains("missing 'server'"), "{err:?}");
    }
}

#[test]
fn execute_requests_carry_their_code() {
    let code = "import * as math from './servers/math';\n\
                export default await math.add({ a: 2, b: 3 });";
    let mut given = serde_json::Map::new();
    given.insert("code".to_string(), Value::String(code.to_string()));
    assert!(matches!(dispatch_tool("execute", &given), Ok(Request::Execute(c)) if c == code));
}

#[test]
fn dispatch_execute_without_code_is_invalid_params() {
    let err = dispatch_tool("execute", &args("{}")).unwrap_err();
    assert!(err.contains("missing 'code'"), "{err:?}");
}

#[test]
fn dispatch_unknown_tool_is_invalid_params() {
    let err = dispatch_tool("frobnicate", &args("{}")).unwrap_err();
    assert!(err.contains("unknown tool 'frobnicate'"), "{err:?}");
}

#[test]
fn listings_show_tools_or_why_not() {
    let server = ServerInfo {
        name: "fs".to_string(),
        description: None,
    };
    let tool = |name: &str, description: Option<&str>| ToolInfo {
        name: name.to_string(),
        description: description.map(str::to_string),
        input_schema: json("{}"),
    };
    assert_eq!(
        listing_text(&server, &Ok(vec![tool("read", Some("Read a file")), tool("ls", None)])),
        "fs\n  - read Read a file\n  - ls \n"
    );
    assert_eq!(listing_text(&server, &Ok(vec![])), "fs\n");
    assert_eq!(
        listing_text(&server, &Err(Error::Mcp("gone".to_string()))),
        "fs\n  (error listing tools: MCP error: gone)\n"
    );
}
