use codemode::config::{
    Format, LoadFailure, McpJson, McpJsonServer, TomlConfig, TomlRuntime, TomlServer,
};
use codemode::{Config, Error, Limits, ServerConfig};
use serde_json::Value;

fn texts(value: Option<&toml::Value>) -> Option<Vec<String>> {
    value.map(|v| {
        v.as_array()
            .unwrap()
            .iter()
            .map(|s| s.as_str().unwrap().to_string())
            .collect()
    })
}

fn read_toml(text: &str) -> TomlConfig {
    let table: toml::Table = toml::from_str(text).unwrap();
    let servers = match table.get("servers") {
        None => Vec::new(),
        Some(servers) => servers
            .as_table()
            .unwrap()
            .iter()
            .map(|(name, s)| {
                let env = match s.get("env") {
                    None => Vec::new(),
                    Some(env) => env
                        .as_table()
                        .unwrap()
                        .iter()
                        .map(|(k, v)| (k.clone(), v.as_str().unwrap().to_string()))
                        .collect(),
                };
                let server = TomlServer {
                    command: s.get("command").unwrap().as_str().unwrap().to_string(),
                    args: texts(s.get("args")).unwrap_or_default(),
                    env,
                    allow: texts(s.get("allow")),
                };
                (name.clone(), server)
            })
            .collect(),
    };
    let runtime = table.get("runtime").map(|rt| {
        let number = |name: &str| rt.get(name).map(|v| v.as_integer().unwrap() as u64);
        TomlRuntime {
            timeout_ms: number("timeout_ms"),
            max_loop_iterations: number("max_loop_iterations"),
            max_recursion_depth: number("max_recursion_depth").map(|n| n as usize),
            max_stack_size: number("max_stack_size").map(|n| n as usize),
            max_backtrace_frames: number("max_backtrace_frames").map(|n| n as usize),
            max_tool_calls: number("max_tool_calls").map(|n| n as u32),
            max_output_bytes: number("max_output_bytes").map(|n| n as usize),
            per_call_timeout_ms: number("per_call_timeout_ms"),
        }
    });
    TomlConfig { servers, runtime }
}

fn read_mcp_json(text: &str) -> McpJson {
    let value: Value = serde_json::from_str(text).unwrap();
    let mcp_servers = value["mcpServers"]
        .as_object()
        .unwrap()
        .iter()
        .map(|(name, s)| {
            let args = match &s["args"] {
                Value::Array(args) => args
                    .iter()
                    .map(|a| a.as_str().unwrap().to_string())
                    .collect(),
                _ => Vec::new(),
            };
            let env = match &s["env"] {
                Value::Object(env) => env
                    .iter()
                    .map(|(k, v)| (k.clone(), v.as_str().unwrap().to_string()))
                    .collect(),
                _ => Vec::new(),
            };
            let server = McpJsonServer {
                command: s["command"].as_str().unwrap().to_string(),
                args,
                env,
            };
            (name.clone(), server)
        })
        .collect();
    McpJson { mcp_servers }
}

#[test]
fn parses_toml_with_runtime_and_allow() {
    let toml = r#"
            [servers.gd]
            command = "npx"
            args = ["-y", "server-gdrive"]
            env = { TOKEN = "x" }
            allow = ["getSheet"]

            [runtime]
            timeout_ms = 2000
            max_tool_calls = 10
            max_backtrace_frames = 5
        "#;
    let cfg = Config::from_toml("servers.toml", Ok(read_toml(toml))).unwrap();
    assert_eq!(cfg.servers.len(), 1);
    let s = &cfg.servers[0];
    assert_eq!(s.name, "gd");
    assert_eq!(s.command, "npx");
    assert_eq!(s.args, ["-y", "server-gdrive"]);
    assert_eq!(s.env, [("TOKEN".to_string(), "x".to_string())]);
    assert_eq!(cfg.limits.max_backtrace_frames, 5);
    assert_eq!(s.allow.as_deref(), Some(&["getSheet".to_string()][..]));
    assert_eq!(cfg.limits.timeout, std::time::Duration::from_millis(2000));
    assert_eq!(cfg.limits.max_tool_calls, 10);
    // What the file does not mention keeps its default.
    assert_eq!(cfg.limits.max_loop_iterations, 10_000_000);
    assert_eq!(
        cfg.limits.per_call_timeout,
        std::time::Duration::from_secs(30)
    );
}

#[test]
fn every_limit_can_be_set() {
    let raw = read_toml(
        "[runtime]\ntimeout_ms = 1\nmax_loop_iterations = 2\nmax_recursion_depth = 3\n\
         max_stack_size = 4\nmax_backtrace_frames = 5\nmax_tool_calls = 6\n\
         max_output_bytes = 7\nper_call_timeout_ms = 8\n",
    );
    let cfg = Config::from_toml("servers.toml", Ok(raw)).unwrap();
    assert!(cfg.servers.is_empty());
    assert_eq!(cfg.limits.timeout, std::time::Duration::from_millis(1));
    assert_eq!(cfg.limits.max_loop_iterations, 2);
    assert_eq!(cfg.limits.max_recursion_depth, 3);
    assert_eq!(cfg.limits.max_stack_size, 4);
    assert_eq!(cfg.limits.max_backtrace_frames, 5);
    assert_eq!(cfg.limits.max_tool_calls, 6);
    assert_eq!(cfg.limits.max_output_bytes, 7);
    assert_eq!(
        cfg.limits.per_call_timeout,
        std::time::Duration::from_millis(8)
    );
}

#[test]
fn empty_and_missing_runtime_mean_the_same() {
    for text in ["", "[runtime]\n"] {
        let limits = read_toml(text).into_config().limits;
        assert_eq!(format!("{limits:?}"), format!("{:?}", Limits::default()));
    }
}

#[test]
fn from_mcp_json_exposes_all_tools_with_default_limits() {
    let raw = read_mcp_json(r#"{ "mcpServers": { "fs": { "command": "npx", "args": ["x"] } } }"#);
    let cfg = Config::from_mcp_json("servers.json", Ok(raw)).unwrap();
    assert_eq!(cfg.servers.len(), 1);
    assert_eq!(cfg.servers[0].name, "fs");
    assert!(
        cfg.servers[0].allow.is_none(),
        "mcp-json exposes all tools (no allowlist)"
    );
    assert_eq!(cfg.limits.timeout, Limits::default().timeout);
}

#[test]
fn parses_mcp_json_with_allow_all() {
    let json = r#"{ "mcpServers": {
            "fs": { "command": "npx", "args": ["server-fs"], "env": { "K": "v" } }
        }}"#;
    let cfg = read_mcp_json(json).into_config();
    assert_eq!(cfg.servers.len(), 1);
    let s = &cfg.servers[0];
    assert_eq!(s.command, "npx");
    assert_eq!(s.args, ["server-fs"]);
    assert_eq!(s.env, [("K".to_string(), "v".to_string())]);
}

#[test]
fn format_goes_by_the_extension() {
    for json in ["json", "JSON", "Json"] {
        assert_eq!(Format::of_extension(Some(json)), Format::McpJson);
    }
    for toml in ["toml", "jso", "jsonc", "json5", "", "jſon", "ison"] {
        assert_eq!(Format::of_extension(Some(toml)), Format::Toml);
    }
    assert_eq!(Format::of_extension(None), Format::Toml);
    assert!(Format::Toml.carries_allowlist());
    assert!(!Format::McpJson.carries_allowlist());
}

#[test]
fn failures_to_load_are_configuration_errors() {
    let unreadable = || LoadFailure::Unreadable("not found".to_string());
    let malformed = || LoadFailure::Malformed("expected `=`".to_string());
    let errors = [
        Config::from_toml("dir/servers.toml", Err(unreadable())).unwrap_err(),
        Config::from_mcp_json("dir/servers.toml", Err(unreadable())).unwrap_err(),
    ];
    for error in errors {
        assert_eq!(
            error.message(),
            "configuration error: dir/servers.toml: not found"
        );
    }
    let error = Config::from_toml("dir/servers.toml", Err(malformed())).unwrap_err();
    assert!(matches!(&error, Error::Config(m) if m == "expected `=`"));
    let error = Config::from_mcp_json("dir/servers.json", Err(malformed())).unwrap_err();
    assert!(matches!(&error, Error::Config(m) if m == "expected `=`"));
}

#[test]
fn file_is_loaded_in_the_format_of_its_extension() {
    let toml = || Ok(read_toml("[servers.a]\ncommand = \"x\"\nallow = [\"t\"]\n"));
    let mcp_json = || Ok(read_mcp_json(r#"{ "mcpServers": { "b": { "command": "y" } } }"#));
    for extension in [Some("json"), Some("JSON")] {
        let cfg = Config::from_path(
            "servers.json",
            extension,
            || panic!("loaded as TOML"),
            mcp_json,
        )
        .unwrap();
        assert_eq!(cfg.servers[0].name, "b");
        assert!(cfg.servers[0].allow.is_none());
    }
    for extension in [Some("toml"), Some("conf"), None] {
        let cfg = Config::from_path("servers", extension, toml, || panic!("loaded as JSON"));
        let cfg = cfg.unwrap();
        assert_eq!(cfg.servers[0].name, "a");
        assert_eq!(cfg.servers[0].allow.as_deref(), Some(&["t".to_string()][..]));
    }
    let error = Config::from_path(
        "gone.json",
        Some("json"),
        toml,
        || Err(LoadFailure::Unreadable("not found".to_string())),
    );
    assert_eq!(
        error.unwrap_err().message(),
        "configuration error: gone.json: not found"
    );
}

#[test]
fn servers_are_described_step_by_step() {
    let server = ServerConfig::stdio(
        "fs".to_string(),
        "npx".to_string(),
        vec!["-y".to_string(), "server".to_string()],
    );
    assert_eq!(server.name, "fs");
    assert_eq!(server.command, "npx");
    assert_eq!(server.args, ["-y", "server"]);
    assert!(server.env.is_empty());
    assert!(server.allow.is_none());
    let server = server
        .env("A".to_string(), "1".to_string())
        .env("A".to_string(), "2".to_string())
        .allow(vec!["read".to_string()]);
    assert_eq!(
        server.env,
        [
            ("A".to_string(), "1".to_string()),
            ("A".to_string(), "2".to_string())
        ]
    );
    assert_eq!(server.allow, Some(vec!["read".to_string()]));
    assert_eq!(server.name, "fs");
}
