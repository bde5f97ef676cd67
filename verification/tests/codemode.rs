use codemode::codemode::{
    check_server, discover, exposed_servers, find, listing_failed, panicked, Island, Listing,
    DEFAULT_MAX_CONCURRENT,
};
use codemode::exposure::{Exposure, ExposureStep};
use codemode::local::{handled, Router};
use codemode::runtime::{settle, Guard, Reply};
use codemode::{
    AllowList, BridgeError, Capabilities, CodeModeBuilder, Config, Error, ExecError, Limits, LocalTools,
    ServerConfig, ServerInfo, ServerTools, ToolInfo,
};
use serde_json::Value;
use std::time::Duration;

fn json(text: &str) -> Value {
    serde_json::from_str(text).unwrap()
}

fn strings(list: &[&str]) -> Vec<String> {
    list.iter().map(|s| s.to_string()).collect()
}

fn info(name: &str) -> ServerInfo {
    ServerInfo {
        name: name.to_string(),
        description: None,
    }
}

fn tool(name: &str) -> ToolInfo {
    ToolInfo {
        name: name.to_string(),
        description: None,
        input_schema: json("{}"),
    }
}

fn names(tools: &[ToolInfo]) -> Vec<&str> {
    tools.iter().map(|t| t.name.as_str()).collect()
}

fn allow_echo() -> AllowList {
    let mut allow = AllowList::default();
    allow.allow("demo".to_string(), strings(&["echo"]));
    allow
}

fn server(name: &str) -> ServerConfig {
    ServerConfig::stdio(name.to_string(), "npx".to_string(), vec![])
}

#[test]
fn discover_and_find_respect_the_allowlist() {
    let allow = allow_echo();
    let servers = discover(&allow, Ok(vec![info("demo"), info("other")])).unwrap();
    assert_eq!(servers.len(), 1);
    assert_eq!(servers[0].name, "demo");

    let tools = find(&allow, "demo", Ok(vec![tool("echo"), tool("secret")])).unwrap();
    assert_eq!(tools.len(), 1);
    assert_eq!(tools[0].name, "echo");

    assert!(check_server(&allow, "demo").is_ok());
    assert!(matches!(check_server(&allow, "x"), Err(Error::UnknownServer(s)) if s == "x"));
    assert!(
        matches!(find(&allow, "other", Ok(vec![])), Err(Error::UnknownServer(s)) if s == "other")
    );
    assert!(
        matches!(find(&allow, "demo", Err(Error::Mcp("m".to_string()))), Err(Error::Mcp(m)) if m == "m")
    );
    assert!(matches!(
        discover(&allow, Err(Error::IslandGone)),
        Err(Error::IslandGone)
    ));
}

#[test]
fn broken_server_is_left_out() {
    let mut allow = allow_echo();
    allow.allow_all("broken".to_string());
    allow.allow_all("all".to_string());
    let servers = exposed_servers(
        &allow,
        vec![
            Listing {
                server: info("broken"),
                tools: Err(Error::UnknownServer("broken".to_string())),
            },
            Listing {
                server: info("demo"),
                tools: Ok(vec![tool("secret"), tool("echo"), tool("more")]),
            },
            Listing {
                server: info("hidden"),
                tools: Ok(vec![tool("echo")]),
            },
            Listing {
                server: info("all"),
                tools: Ok(vec![tool("b"), tool("a")]),
            },
        ],
    );
    assert_eq!(servers.len(), 2);
    assert_eq!(servers[0].name, "demo");
    assert_eq!(names(&servers[0].tools), ["echo"]);
    assert_eq!(servers[1].name, "all");
    assert_eq!(names(&servers[1].tools), ["b", "a"]);
}

#[test]
fn failures_outside_the_code_become_outcomes() {
    let outcome = listing_failed(&Error::Mcp("gone".to_string()));
    assert!(
        matches!(outcome.error, Some(ExecError::Exception { message }) if message == "MCP error: gone")
    );
    assert_eq!(outcome.result, Value::Null);
    let outcome = panicked();
    assert!(
        matches!(outcome.error, Some(ExecError::Exception { message }) if message == "internal error: execution panicked")
    );
    assert!(outcome.logs.is_empty());
}

#[test]
fn builder_starts_from_defaults() {
    let plan = CodeModeBuilder::<()>::new().build().unwrap();
    assert!(plan.servers.is_empty());
    assert!(plan.local.is_empty());
    assert_eq!(plan.max_concurrent, DEFAULT_MAX_CONCURRENT);
    assert_eq!(plan.max_concurrent, 16);
    assert_eq!(plan.limits.timeout, Duration::from_secs(5));
    assert!(!plan.allow.server_allowed("anything"));
}

#[test]
fn builder_collects_servers_and_limits() {
    let config = Config {
        servers: vec![server("c")],
        limits: Limits {
            max_tool_calls: 7,
            ..Limits::default()
        },
    };
    let plan = CodeModeBuilder::<u8>::new()
        .server(server("a").allow(strings(&["x"])))
        .servers(vec![server("b")])
        .config(config)
        .timeout(Duration::from_millis(9))
        .local_tools(LocalTools::new("math".to_string()).tool(
            "add".to_string(),
            "Add two numbers".to_string(),
            json(r#"{ "type": "object" }"#),
            1,
        ))
        .max_concurrent_executions(3)
        .build()
        .unwrap();
    let servers: Vec<&str> = plan.servers.iter().map(|s| s.name.as_str()).collect();
    assert_eq!(servers, ["a", "b", "c"]);
    assert_eq!(plan.limits.max_tool_calls, 7);
    assert_eq!(plan.limits.timeout, Duration::from_millis(9));
    assert_eq!(plan.max_concurrent, 3);
    assert!(plan.allow.allows("a", "x"));
    assert!(!plan.allow.allows("a", "y"));
    assert!(plan.allow.allows("b", "anything"));
    assert!(plan.allow.allows("math", "add"));
    assert!(!plan.allow.allows("math", "sub"));
    assert!(!plan.allow.server_allowed("d"));

    let limits = Limits {
        max_tool_calls: 1,
        ..Limits::default()
    };
    let plan = CodeModeBuilder::<u8>::new()
        .limits(limits)
        .max_concurrent_executions(0)
        .build()
        .unwrap();
    assert_eq!(plan.limits.max_tool_calls, 1);
    assert_eq!(plan.max_concurrent, 1);
}

#[test]
fn builder_refuses_a_name_twice() {
    let build = |servers: &[&str], local: &[&str]| {
        let mut builder = CodeModeBuilder::<()>::new();
        for name in servers {
            builder = builder.server(server(name));
        }
        for name in local {
            builder = builder.local_tools(LocalTools::new(name.to_string()));
        }
        builder.build().map(|_| ()).map_err(|e| e.message())
    };
    assert_eq!(build(&["a", "b"], &["c"]), Ok(()));
    assert_eq!(
        build(&["a", "b", "b", "a"], &[]),
        Err("configuration error: duplicate server 'b'".to_string())
    );
    assert_eq!(
        build(&["a"], &["a"]),
        Err("configuration error: duplicate server 'a'".to_string())
    );
    assert_eq!(
        build(&[], &["l", "l"]),
        Err("configuration error: duplicate server 'l'".to_string())
    );
}

#[test]
fn slots_fill_in_order_of_arrival() {
    let mut island = Island::new(2);
    assert!(island.submit(1));
    assert!(island.submit(2));
    assert!(!island.submit(3));
    assert!(!island.submit(4));
    assert_eq!(island.finish(), Some(3));
    island.drain();
    assert!(!island.is_drained());
    assert_eq!(island.finish(), Some(4));
    assert_eq!(island.finish(), None);
    assert!(!island.is_drained());
    assert_eq!(island.finish(), None);
    assert!(island.is_drained());

    let mut single = Island::new(0);
    assert!(!single.is_drained());
    // Where nothing runs, nothing ends.
    assert_eq!(single.finish(), None);
    assert!(single.submit(1));
    assert!(!single.submit(2));
}

#[test]
fn local_tool_is_found_by_its_name() {
    type Handler = fn(&Value) -> Value;
    let add: Handler = |args| {
        Value::from(args["a"].as_f64().unwrap_or(0.0) + args["b"].as_f64().unwrap_or(0.0))
    };
    let tools = LocalTools::new("math".to_string()).tool(
        "add".to_string(),
        "Add two numbers".to_string(),
        json(r#"{ "type": "object" }"#),
        add,
    );
    assert_eq!(tools.server(), "math");
    let handler = tools.resolve("math", "add").unwrap();
    assert_eq!(handler(&json(r#"{ "a": 2, "b": 3 }"#)), Value::from(5.0));
}

#[test]
fn local_tools_answer_under_their_own_name() {
    let tools = LocalTools::new("t".to_string())
        .tool("a".to_string(), "first".to_string(), json("1"), 1)
        .tool("b".to_string(), String::new(), json("2"), 2)
        .tool("a".to_string(), "second".to_string(), json("3"), 3);
    assert_eq!(tools.tool_names(), strings(&["a", "b", "a"]));
    assert_eq!(tools.info().name, "t");
    assert_eq!(tools.info().description, None);
    let listed = tools.list("t").unwrap();
    assert_eq!(names(&listed), ["b", "a"]);
    assert_eq!(listed[1].description.as_deref(), Some("second"));
    assert_eq!(listed[1].input_schema, json("3"));
    assert!(matches!(tools.resolve("t", "a"), Ok(3)));
    assert!(matches!(tools.resolve("t", "b"), Ok(2)));
    assert!(
        matches!(tools.resolve("t", "c"), Err(Error::Tool(m)) if m == "unknown tool 'c'")
    );
    assert!(matches!(tools.resolve("u", "a"), Err(Error::UnknownServer(s)) if s == "u"));
    assert!(matches!(tools.list("u"), Err(Error::UnknownServer(s)) if s == "u"));
}

#[test]
fn handler_answers_are_passed_on() {
    let value = json(r#"{ "sum": 5 }"#);
    assert_eq!(handled(Ok(value.clone())).unwrap(), value);
    let error = handled(Err("no such row".to_string())).unwrap_err();
    assert!(matches!(&error, Error::Tool(m) if m == "no such row"));
    // It is the tool's own error, so the code gets to see it.
    let shown = settle(Reply::Failed(error), 100).unwrap_err();
    assert_eq!(shown.message(), "no such row");
}

#[test]
fn calls_are_routed_by_server() {
    let router = Router::new(vec![strings(&["a", "b"]), vec![], strings(&["c", "a"])]);
    assert!(matches!(router.route("a"), Ok(2)));
    assert!(matches!(router.route("b"), Ok(0)));
    assert!(matches!(router.route("c"), Ok(2)));
    assert!(matches!(router.route("d"), Err(Error::UnknownServer(s)) if s == "d"));
}

#[test]
fn capabilities_of_a_minimal_backend() {
    let caps = Capabilities::new("none", "This backend ignores your code.");
    assert_eq!(caps.language, "none");
    assert_eq!(caps.usage_guidance, "This backend ignores your code.");
    assert!(caps.supports_async);
    assert!(!caps.hard_memory_cap);
}

#[test]
fn found_tools_are_the_callable_ones() {
    let allow = allow_echo();
    let listed = || vec![tool("echo"), tool("secret"), tool("more")];
    let found = find(&allow, "demo", Ok(listed())).unwrap();
    for tool in listed() {
        let mut guard = Guard::new(allow.clone(), 1);
        let passed = guard.enter("demo", &tool.name);
        assert_eq!(passed.is_ok(), names(&found).contains(&tool.name.as_str()));
        if let Err(error) = passed {
            assert!(matches!(error, BridgeError::Denied { .. }));
        }
    }
}

fn one_server() -> Vec<ServerTools> {
    vec![ServerTools {
        name: "demo".to_string(),
        tools: vec![tool("echo")],
    }]
}

#[test]
fn servers_are_listed_once_then_kept() {
    let mut exposure = Exposure::new();
    assert!(matches!(exposure.on_execute(), ExposureStep::List));
    // Those that come meanwhile wait.
    assert!(matches!(exposure.on_execute(), ExposureStep::Wait));
    assert!(matches!(exposure.on_execute(), ExposureStep::Wait));
    let own = exposure.listed(Ok(one_server())).unwrap();
    assert_eq!(own[0].name, "demo");
    for _ in 0..3 {
        match exposure.on_execute() {
            ExposureStep::Use(servers) => {
                assert_eq!(servers.len(), 1);
                assert_eq!(servers[0].name, "demo");
                assert_eq!(names(&servers[0].tools), ["echo"]);
            }
            other => panic!("expected the kept servers, got {other:?}"),
        }
    }
    // The first success stands, whatever is reported later.
    assert!(exposure.listed(Ok(vec![])).unwrap().is_empty());
    exposure.broke_off();
    assert!(matches!(exposure.on_execute(), ExposureStep::Use(servers) if servers.len() == 1));
}

#[test]
fn failed_listings_are_not_kept() {
    let mut exposure = Exposure::new();
    assert!(matches!(exposure.on_execute(), ExposureStep::List));
    let own = exposure.listed(Err(Error::Mcp("gone".to_string())));
    assert!(matches!(own, Err(Error::Mcp(m)) if m == "gone"));
    assert!(matches!(exposure.on_execute(), ExposureStep::List));
    exposure.broke_off();
    assert!(matches!(exposure.on_execute(), ExposureStep::List));
    assert!(matches!(exposure.on_execute(), ExposureStep::Wait));
}
