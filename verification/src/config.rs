//! Configuration: how to launch downstream MCP servers, in our own TOML or the
//! standard `mcpServers` JSON, plus the runtime limits.

use std::time::Duration;

use vstd::prelude::*;

use crate::error::Error;
use crate::text;
use crate::time;
use crate::types::{self, Limits};

verus! {

/// How to launch and expose one stdio MCP server.
#[derive(Clone, Debug)]
pub struct ServerConfig {
    pub name: String,
    pub command: String,
    pub args: Vec<String>,
    pub env: Vec<(String, String)>,
    /// Exposed tools. `None` exposes every tool the server lists.
    pub allow: Option<Vec<String>>,
}

/// What a [`ServerConfig`] says.
#[verifier::ext_equal]
pub struct ServerPlan {
    pub name: Seq<char>,
    pub command: Seq<char>,
    pub args: Seq<Seq<char>>,
    pub env: Seq<(Seq<char>, Seq<char>)>,
    pub allow: Option<Seq<Seq<char>>>,
}

/// The characters of pairs of strings.
pub open spec fn pair_texts(pairs: Seq<(String, String)>) -> Seq<(Seq<char>, Seq<char>)> {
    pairs.map_values(|p: (String, String)| (p.0@, p.1@))
}

/// The characters of an optional list of strings.
pub open spec fn optional_texts(list: Option<Vec<String>>) -> Option<Seq<Seq<char>>> {
    match list {
        Some(list) => Some(text::texts(list@)),
        None => None,
    }
}

impl View for ServerConfig {
    type V = ServerPlan;

    open spec fn view(&self) -> ServerPlan {
        ServerPlan {
            name: self.name@,
            command: self.command@,
            args: text::texts(self.args@),
            env: pair_texts(self.env@),
            allow: optional_texts(self.allow),
        }
    }
}

/// What the configurations of a list say.
pub open spec fn plans(servers: Seq<ServerConfig>) -> Seq<ServerPlan> {
    servers.map_values(|s: ServerConfig| s@)
}

impl ServerConfig {
    /// A server that is started with `command` and `args`, with every tool exposed.
    pub fn stdio(name: String, command: String, args: Vec<String>) -> (config: Self)
        ensures
            config@ == (ServerPlan {
                name: name@,
                command: command@,
                args: text::texts(args@),
                env: Seq::empty(),
                allow: None,
            }),
    {
        let env: Vec<(String, String)> = Vec::new();
        assert(pair_texts(env@) =~= Seq::empty());
        ServerConfig { name, command, args, env, allow: None }
    }

    /// Adds a variable to the server's environment.
    pub fn env(self, key: String, value: String) -> (config: Self)
        ensures
            config@ == (ServerPlan { env: self@.env.push((key@, value@)), ..self@ }),
    {
        let mut config: ServerConfig = self;
        let ghost before = config.env@;
        config.env.push((key, value));
        assert(pair_texts(config.env@) =~= pair_texts(before).push((key@, value@)));
        config
    }

    /// Restricts the exposed tools (deny-by-default within this server).
    pub fn allow(self, tools: Vec<String>) -> (config: Self)
        ensures
            config@ == (ServerPlan { allow: Some(text::texts(tools@)), ..self@ }),
    {
        let mut config: ServerConfig = self;
        config.allow = Some(tools);
        config
    }
}

/// Servers plus runtime limits, loadable from a file.
#[derive(Clone, Debug)]
pub struct Config {
    pub servers: Vec<ServerConfig>,
    pub limits: Limits,
}

/// A server as our TOML describes it.
#[derive(Debug)]
pub struct TomlServer {
    pub command: String,
    pub args: Vec<String>,
    /// In the order of the variables' names.
    pub env: Vec<(String, String)>,
    pub allow: Option<Vec<String>>,
}

/// The runtime limits as our TOML gives them. What is missing keeps its default.
#[derive(Debug)]
pub struct TomlRuntime {
    pub timeout_ms: Option<u64>,
    pub max_loop_iterations: Option<u64>,
    pub max_recursion_depth: Option<usize>,
    pub max_stack_size: Option<usize>,
    pub max_backtrace_frames: Option<usize>,
    pub max_tool_calls: Option<u32>,
    pub max_output_bytes: Option<usize>,
    pub per_call_timeout_ms: Option<u64>,
}

/// A file of ours.
#[derive(Debug)]
pub struct TomlConfig {
    /// In the order of the servers' names.
    pub servers: Vec<(String, TomlServer)>,
    pub runtime: Option<TomlRuntime>,
}

/// A server as the standard JSON describes it.
#[derive(Debug)]
pub struct McpJsonServer {
    pub command: String,
    pub args: Vec<String>,
    /// In the order of the variables' names.
    pub env: Vec<(String, String)>,
}

/// A standard `{ "mcpServers": { ... } }` file.
#[derive(Debug)]
pub struct McpJson {
    /// In the order of the servers' names.
    pub mcp_servers: Vec<(String, McpJsonServer)>,
}

/// The two formats of a configuration file.
#[derive(Debug, Clone, Copy, PartialEq, Eq, Structural)]
pub enum Format {
    McpJson,
    Toml,
}

/// The lowercase form of an ASCII letter; any other character as it is.
pub open spec fn ascii_lower(c: char) -> char {
    if 'A' <= c && c <= 'Z' {
        (c as u32 + 32) as char
    } else {
        c
    }
}

/// Two texts are equal but for the case of ASCII letters.
pub open spec fn equal_but_for_case(a: Seq<char>, b: Seq<char>) -> bool {
    a.len() == b.len() && forall|i: int|
        0 <= i < a.len() ==> ascii_lower(#[trigger] a[i]) == ascii_lower(b[i])
}

/// The format that a file extension stands for.
pub open spec fn format_of(extension: Option<Seq<char>>) -> Format {
    match extension {
        Some(extension) => if equal_but_for_case(extension, "json"@) {
            Format::McpJson
        } else {
            Format::Toml
        },
        None => Format::Toml,
    }
}

fn lower(c: char) -> (l: char)
    ensures
        l == ascii_lower(c),
{
    if 'A' <= c && c <= 'Z' {
        ((c as u8) + 32u8) as char
    } else {
        c
    }
}

impl Format {
    /// Chooses the format by the file's extension (`.json`/`.mcp.json` is MCP JSON,
    /// anything else TOML).
    pub fn of_extension(extension: Option<&str>) -> (format: Format)
        ensures
            format == format_of(
                match extension {
                    Some(extension) => Some(extension@),
                    None => None,
                },
            ),
    {
        let given: &str = match extension {
            Some(given) => given,
            None => {
                return Format::Toml;
            },
        };
        let a: Vec<char> = text::chars_of(given);
        let b: Vec<char> = text::chars_of("json");
        if a.len() != b.len() {
            return Format::Toml;
        }
        let mut i: usize = 0;
        while i < a.len()
            invariant
                extension == Some(given),
                a@ == given@,
                b@ == "json"@,
                a@.len() == b@.len(),
                i <= a@.len(),
                forall|j: int| 0 <= j < i ==> ascii_lower(#[trigger] a@[j]) == ascii_lower(b@[j]),
            decreases a@.len() - i,
        {
            if lower(a[i]) != lower(b[i]) {
                assert(ascii_lower(given@[i as int]) != ascii_lower("json"@[i as int]));
                return Format::Toml;
            }
            i = i + 1;
        }
        Format::McpJson
    }

    /// Whether files of this format can restrict which tools are exposed. The
    /// standard JSON carries no allowlist, so all listed tools are exposed.
    pub fn carries_allowlist(self) -> (carries: bool)
        ensures
            carries == (self == Format::Toml),
    {
        match self {
            Format::McpJson => false,
            Format::Toml => true,
        }
    }
}

/// Why a file could not be loaded.
#[derive(Debug)]
pub enum LoadFailure {
    /// It could not be read, for this reason.
    Unreadable(String),
    /// It could not be parsed, for this reason.
    Malformed(String),
}

/// What the servers of a TOML file say.
pub open spec fn toml_plans(servers: Seq<(String, TomlServer)>) -> Seq<ServerPlan> {
    servers.map_values(
        |s: (String, TomlServer)|
            ServerPlan {
                name: s.0@,
                command: s.1.command@,
                args: text::texts(s.1.args@),
                env: pair_texts(s.1.env@),
                allow: optional_texts(s.1.allow),
            },
    )
}

/// What the servers of a standard JSON file say. It carries no allowlist, so every
/// listed server exposes all its tools.
pub open spec fn mcp_json_plans(servers: Seq<(String, McpJsonServer)>) -> Seq<ServerPlan> {
    servers.map_values(
        |s: (String, McpJsonServer)|
            ServerPlan {
                name: s.0@,
                command: s.1.command@,
                args: text::texts(s.1.args@),
                env: pair_texts(s.1.env@),
                allow: None,
            },
    )
}

/// A limit that a file gives, or its default.
pub open spec fn given_or<T>(given: Option<T>, default: T) -> T {
    match given {
        Some(value) => value,
        None => default,
    }
}

/// A time limit that a file gives in milliseconds, or its default.
pub open spec fn given_nanos_or(given_ms: Option<u64>, default: nat) -> nat {
    match given_ms {
        Some(ms) => (ms * time::NANOS_PER_MILLI) as nat,
        None => default,
    }
}

/// The limits are these, with what the file gives in place of the defaults.
pub open spec fn are_limits_of(limits: Limits, runtime: Option<TomlRuntime>) -> bool {
    match runtime {
        None => types::is_default_limits(limits),
        Some(rt) => {
            &&& time::nanos(limits.timeout) == given_nanos_or(
                rt.timeout_ms,
                (5 * time::NANOS_PER_SEC) as nat,
            )
            &&& limits.max_loop_iterations == given_or(rt.max_loop_iterations, 10_000_000)
            &&& limits.max_recursion_depth == given_or(rt.max_recursion_depth, 400)
            &&& limits.max_stack_size == given_or(rt.max_stack_size, 10_240)
            &&& limits.max_backtrace_frames == given_or(rt.max_backtrace_frames, 50)
            &&& limits.max_tool_calls == given_or(rt.max_tool_calls, 50)
            &&& limits.max_output_bytes == given_or(rt.max_output_bytes, 1_000_000)
            &&& time::nanos(limits.per_call_timeout) == given_nanos_or(
                rt.per_call_timeout_ms,
                (30 * time::NANOS_PER_SEC) as nat,
            )
        },
    }
}

impl TomlConfig {
    /// The configuration that a TOML file describes.
    pub fn into_config(self) -> (config: Config)
        ensures
            plans(config.servers@) == toml_plans(self.servers@),
            are_limits_of(config.limits, self.runtime),
    {
        let raw: TomlConfig = self;
        let ghost given = raw.servers@;
        let mut servers: Vec<ServerConfig> = Vec::new();
        for entry in it: raw.servers
            invariant
                it.seq() == given,
                plans(servers@) == toml_plans(given.take(it.index() as int)),
        {
            let ghost done = given.take(it.index() as int);
            let ghost before = servers@;
            let (name, s): (String, TomlServer) = entry;
            let server: ServerConfig = ServerConfig {
                name,
                command: s.command,
                args: s.args,
                env: s.env,
                allow: s.allow,
            };
            servers.push(server);
            proof {
                assert(given.take(it.index() + 1) =~= done.push(given[it.index() as int]));
                assert(plans(servers@) =~= plans(before).push(server@));
                assert(toml_plans(given.take(it.index() + 1)) =~= toml_plans(done).push(server@));
            }
        }
        assert(given.take(given.len() as int) =~= given);
        let mut limits: Limits = Limits::default();
        if let Some(rt) = raw.runtime {
            if let Some(ms) = rt.timeout_ms {
                limits.timeout = Duration::from_millis(ms);
            }
            if let Some(v) = rt.max_loop_iterations {
                limits.max_loop_iterations = v;
            }
            if let Some(v) = rt.max_recursion_depth {
                limits.max_recursion_depth = v;
            }
            if let Some(v) = rt.max_stack_size {
                limits.max_stack_size = v;
            }
            if let Some(v) = rt.max_backtrace_frames {
                limits.max_backtrace_frames = v;
            }
            if let Some(v) = rt.max_tool_calls {
                limits.max_tool_calls = v;
            }
            if let Some(v) = rt.max_output_bytes {
                limits.max_output_bytes = v;
            }
            if let Some(ms) = rt.per_call_timeout_ms {
                limits.per_call_timeout = Duration::from_millis(ms);
            }
        }
        Config { servers, limits }
    }
}

impl McpJson {
    /// The configuration that a standard `{ "mcpServers": { ... } }` file describes.
    /// It carries no allowlist, so every listed server exposes all its tools, and no
    /// limits, so the defaults hold.
    pub fn into_config(self) -> (config: Config)
        ensures
            plans(config.servers@) == mcp_json_plans(self.mcp_servers@),
            types::is_default_limits(config.limits),
    {
        let raw: McpJson = self;
        let ghost given = raw.mcp_servers@;
        let mut servers: Vec<ServerConfig> = Vec::new();
        for entry in it: raw.mcp_servers
            invariant
                it.seq() == given,
                plans(servers@) == mcp_json_plans(given.take(it.index() as int)),
        {
            let ghost done = given.take(it.index() as int);
            let ghost before = servers@;
            let (name, s): (String, McpJsonServer) = entry;
            let server: ServerConfig = ServerConfig {
                name,
                command: s.command,
                args: s.args,
                env: s.env,
                allow: None,
            };
            servers.push(server);
            proof {
                assert(given.take(it.index() + 1) =~= done.push(given[it.index() as int]));
                assert(plans(servers@) =~= plans(before).push(server@));
                assert(mcp_json_plans(given.take(it.index() + 1)) =~= mcp_json_plans(done).push(
                    server@,
                ));
            }
        }
        assert(given.take(given.len() as int) =~= given);
        Config { servers, limits: Limits::default() }
    }
}

/// The error is that of a file at `path` that could not be loaded. One that could not be
/// read is named in it.
pub open spec fn tells_failure(error: Error, path: Seq<char>, failure: LoadFailure) -> bool {
    error matches Error::Config(message) && message@ == match failure {
        LoadFailure::Unreadable(reason) => path + ": "@ + reason@,
        LoadFailure::Malformed(reason) => reason@,
    }
}

/// What a file at `path` gives, where loading it as TOML came to this.
pub open spec fn is_toml_result(
    config: Result<Config, Error>,
    path: Seq<char>,
    loaded: Result<TomlConfig, LoadFailure>,
) -> bool {
    match (config, loaded) {
        (Ok(config), Ok(raw)) => {
            &&& plans(config.servers@) == toml_plans(raw.servers@)
            &&& are_limits_of(config.limits, raw.runtime)
        },
        (Err(error), Err(failure)) => tells_failure(error, path, failure),
        _ => false,
    }
}

/// What a file at `path` gives, where loading it as standard JSON came to this.
pub open spec fn is_mcp_json_result(
    config: Result<Config, Error>,
    path: Seq<char>,
    loaded: Result<McpJson, LoadFailure>,
) -> bool {
    match (config, loaded) {
        (Ok(config), Ok(raw)) => {
            &&& plans(config.servers@) == mcp_json_plans(raw.mcp_servers@)
            &&& types::is_default_limits(config.limits)
        },
        (Err(error), Err(failure)) => tells_failure(error, path, failure),
        _ => false,
    }
}

fn failure_error(path: &str, failure: LoadFailure) -> (error: Error)
    ensures
        tells_failure(error, path@, failure),
{
    match failure {
        LoadFailure::Unreadable(reason) => {
            let mut message: String = path.to_owned();
            message.push_str(": ");
            message.push_str(reason.as_str());
            Error::Config(message)
        },
        LoadFailure::Malformed(reason) => Error::Config(reason),
    }
}

impl Config {
    /// The configuration in the TOML file at `path`, by what came of loading it.
    pub fn from_toml(path: &str, loaded: Result<TomlConfig, LoadFailure>) -> (config: Result<
        Config,
        Error,
    >)
        ensures
            is_toml_result(config, path@, loaded),
    {
        match loaded {
            Ok(raw) => Ok(raw.into_config()),
            Err(failure) => Err(failure_error(path, failure)),
        }
    }

    /// The configuration in the standard JSON file at `path`, by what came of loading it.
    pub fn from_mcp_json(path: &str, loaded: Result<McpJson, LoadFailure>) -> (config: Result<
        Config,
        Error,
    >)
        ensures
            is_mcp_json_result(config, path@, loaded),
    {
        match loaded {
            Ok(raw) => Ok(raw.into_config()),
            Err(failure) => Err(failure_error(path, failure)),
        }
    }

    /// The configuration in the file at `path`, whose extension chooses the format
    /// (`.json`/`.mcp.json` is MCP JSON, anything else TOML). The file is loaded in that
    /// format and in no other, and gives what [`Config::from_mcp_json`] or
    /// [`Config::from_toml`] makes of it, errors included.
    pub fn from_path<
        T: FnOnce() -> Result<TomlConfig, LoadFailure>,
        J: FnOnce() -> Result<McpJson, LoadFailure>,
    >(path: &str, extension: Option<&str>, load_toml: T, load_mcp_json: J) -> (config: Result<
        Config,
        Error,
    >)
        requires
            load_toml.requires(()),
            load_mcp_json.requires(()),
        ensures
            match format_of(
                match extension {
                    Some(extension) => Some(extension@),
                    None => None,
                },
            ) {
                Format::McpJson => exists|loaded: Result<McpJson, LoadFailure>|
                    load_mcp_json.ensures((), loaded) && #[trigger] is_mcp_json_result(
                        config,
                        path@,
                        loaded,
                    ),
                Format::Toml => exists|loaded: Result<TomlConfig, LoadFailure>|
                    load_toml.ensures((), loaded) && #[trigger] is_toml_result(
                        config,
                        path@,
                        loaded,
                    ),
            },
    {
        match Format::of_extension(extension) {
            Format::McpJson => Config::from_mcp_json(path, load_mcp_json()),
            Format::Toml => Config::from_toml(path, load_toml()),
        }
    }
}

/// What a file does not mention keeps its default: an empty `[runtime]` table means
/// the same limits as none at all.
pub proof fn law_missing_limits_are_defaults(limits: Limits, runtime: TomlRuntime)
    requires
        runtime.timeout_ms is None,
        runtime.max_loop_iterations is None,
        runtime.max_recursion_depth is None,
        runtime.max_stack_size is None,
        runtime.max_backtrace_frames is None,
        runtime.max_tool_calls is None,
        runtime.max_output_bytes is None,
        runtime.per_call_timeout_ms is None,
    ensures
        are_limits_of(limits, Some(runtime)) <==> are_limits_of(limits, None),
{
}

/// What a configuration says is what its fields hold.
pub proof fn law_plans_say_what_is_configured(servers: Seq<ServerConfig>, i: int)
    requires
        0 <= i < servers.len(),
    ensures
        plans(servers).len() == servers.len(),
        ({
            let plan = plans(servers)[i];
            let server = servers[i];
            &&& plan.name == server.name@
            &&& plan.command == server.command@
            &&& plan.args == text::texts(server.args@)
            &&& plan.env.len() == server.env@.len()
            &&& forall|k: int|
                0 <= k < plan.env.len() ==> #[trigger] plan.env[k] == (
                    server.env@[k].0@,
                    server.env@[k].1@,
                )
            &&& server.allow matches Some(tools) ==> plan.allow == Some(text::texts(tools@))
            &&& server.allow is None ==> plan.allow is None
        }),
{
}

/// Every server of a TOML file is taken over with all that the file says of it, in the
/// file's order.
pub proof fn law_toml_servers_are_taken_over(servers: Seq<(String, TomlServer)>, i: int)
    requires
        0 <= i < servers.len(),
    ensures
        toml_plans(servers).len() == servers.len(),
        ({
            let plan = toml_plans(servers)[i];
            let (name, server) = servers[i];
            &&& plan.name == name@
            &&& plan.command == server.command@
            &&& plan.args == text::texts(server.args@)
            &&& plan.env.len() == server.env@.len()
            &&& forall|k: int|
                0 <= k < plan.env.len() ==> #[trigger] plan.env[k] == (
                    server.env@[k].0@,
                    server.env@[k].1@,
                )
            &&& server.allow matches Some(tools) ==> plan.allow == Some(text::texts(tools@))
            &&& server.allow is None ==> plan.allow is None
        }),
{
}

/// Every server of a standard JSON file is taken over with all that the file says of it,
/// in the file's order, and without any restriction.
pub proof fn law_mcp_json_servers_are_taken_over(servers: Seq<(String, McpJsonServer)>, i: int)
    requires
        0 <= i < servers.len(),
    ensures
        mcp_json_plans(servers).len() == servers.len(),
        ({
            let plan = mcp_json_plans(servers)[i];
            let (name, server) = servers[i];
            &&& plan.name == name@
            &&& plan.command == server.command@
            &&& plan.args == text::texts(server.args@)
            &&& plan.env.len() == server.env@.len()
            &&& forall|k: int|
                0 <= k < plan.env.len() ==> #[trigger] plan.env[k] == (
                    server.env@[k].0@,
                    server.env@[k].1@,
                )
            &&& plan.allow is None
        }),
{
}

/// Each limit that a file gives holds as given, times in milliseconds, and each that it
/// does not give keeps its default, whatever the others are.
pub proof fn law_given_limits_hold(limits: Limits, runtime: TomlRuntime, default: Limits)
    requires
        are_limits_of(limits, Some(runtime)),
        types::is_default_limits(default),
    ensures
        time::nanos(limits.timeout) == match runtime.timeout_ms {
            Some(ms) => ms * 1_000_000,
            None => time::nanos(default.timeout) as int,
        },
        limits.max_loop_iterations == match runtime.max_loop_iterations {
            Some(n) => n,
            None => default.max_loop_iterations,
        },
        limits.max_recursion_depth == match runtime.max_recursion_depth {
            Some(n) => n,
            None => default.max_recursion_depth,
        },
        limits.max_stack_size == match runtime.max_stack_size {
            Some(n) => n,
            None => default.max_stack_size,
        },
        limits.max_backtrace_frames == match runtime.max_backtrace_frames {
            Some(n) => n,
            None => default.max_backtrace_frames,
        },
        limits.max_tool_calls == match runtime.max_tool_calls {
            Some(n) => n,
            None => default.max_tool_calls,
        },
        limits.max_output_bytes == match runtime.max_output_bytes {
            Some(n) => n,
            None => default.max_output_bytes,
        },
        time::nanos(limits.per_call_timeout) == match runtime.per_call_timeout_ms {
            Some(ms) => ms * 1_000_000,
            None => time::nanos(default.per_call_timeout) as int,
        },
        are_limits_of(default, None),
{
}

/// A file is read as standard JSON exactly where its extension spells `json`, each letter
/// in either case.
pub proof fn law_only_json_extensions_mean_json(extension: Seq<char>)
    ensures
        format_of(None) == Format::Toml,
        format_of(Some(extension)) == Format::McpJson <==> {
            &&& extension.len() == 4
            &&& extension[0] == 'j' || extension[0] == 'J'
            &&& extension[1] == 's' || extension[1] == 'S'
            &&& extension[2] == 'o' || extension[2] == 'O'
            &&& extension[3] == 'n' || extension[3] == 'N'
        },
{
    reveal_strlit("json");
    let json = "json"@;
    if extension.len() == 4 {
        lemma_lower_is(extension[0], 'j', 'J');
        lemma_lower_is(extension[1], 's', 'S');
        lemma_lower_is(extension[2], 'o', 'O');
        lemma_lower_is(extension[3], 'n', 'N');
        if equal_but_for_case(extension, json) {
            assert(ascii_lower(extension[0]) == ascii_lower(json[0]));
            assert(ascii_lower(extension[1]) == ascii_lower(json[1]));
            assert(ascii_lower(extension[2]) == ascii_lower(json[2]));
            assert(ascii_lower(extension[3]) == ascii_lower(json[3]));
        }
    }
}

proof fn lemma_lower_is(c: char, small: char, capital: char)
    requires
        'a' <= small <= 'z',
        'A' <= capital <= 'Z',
        small as u32 == capital as u32 + 32,
    ensures
        ascii_lower(c) == ascii_lower(small) <==> c == small || c == capital,
{
}

/// A file that was loaded gives its servers and limits, and one that was not gives an
/// error with the reason; an unreadable file is named in it.
pub proof fn law_files_give_what_they_hold(
    config: Result<Config, Error>,
    path: Seq<char>,
    toml: Result<TomlConfig, LoadFailure>,
    mcp_json: Result<McpJson, LoadFailure>,
)
    ensures
        is_toml_result(config, path, toml) ==> match toml {
            Ok(raw) => config is Ok && plans(config->Ok_0.servers@) == toml_plans(raw.servers@)
                && are_limits_of(config->Ok_0.limits, raw.runtime),
            Err(LoadFailure::Unreadable(reason)) => config matches Err(Error::Config(message))
                && message@ == path + ": "@ + reason@,
            Err(LoadFailure::Malformed(reason)) => config matches Err(Error::Config(message))
                && message@ == reason@,
        },
        is_mcp_json_result(config, path, mcp_json) ==> match mcp_json {
            Ok(raw) => config is Ok && plans(config->Ok_0.servers@) == mcp_json_plans(
                raw.mcp_servers@,
            ) && types::is_default_limits(config->Ok_0.limits),
            Err(LoadFailure::Unreadable(reason)) => config matches Err(Error::Config(message))
                && message@ == path + ": "@ + reason@,
            Err(LoadFailure::Malformed(reason)) => config matches Err(Error::Config(message))
                && message@ == reason@,
        },
{
}

} // verus!
