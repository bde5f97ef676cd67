//! Plain data that crosses the public boundary and the engine seam.

use std::time::Duration;

use serde_json::Value;
use vstd::prelude::*;

use crate::json::{self, Json};
use crate::text;
use crate::time;

verus! {

/// Max nesting depth of a JSON value that crosses the sandbox's boundary, in either
/// direction. A deeper value would overflow the stack of a recursive conversion, or
/// fail to be read back: the JSON reader gives up at [`JSON_READER_DEPTH`] levels.
pub const MAX_JSON_DEPTH: usize = 120;

/// The nesting at which the JSON reader gives up.
pub const JSON_READER_DEPTH: usize = 128;

/// A discovered server. Never carries launch config (command/args/env).
#[derive(Debug, Clone)]
pub struct ServerInfo {
    pub name: String,
    pub description: Option<String>,
}

/// What a [`ServerInfo`] says.
pub struct ServerInfoView {
    pub name: Seq<char>,
    pub description: Option<Seq<char>>,
}

impl View for ServerInfo {
    type V = ServerInfoView;

    open spec fn view(&self) -> ServerInfoView {
        ServerInfoView { name: self.name@, description: text::optional(self.description) }
    }
}

/// What the servers of a list say of themselves.
pub open spec fn info_views(servers: Seq<ServerInfo>) -> Seq<ServerInfoView> {
    servers.map_values(|s: ServerInfo| s@)
}

/// A tool and its input schema, the source the codegen turns into a typed call.
#[derive(Debug)]
pub struct ToolInfo {
    pub name: String,
    pub description: Option<String>,
    pub input_schema: Value,
}

impl Clone for ToolInfo {
    fn clone(&self) -> (copy: Self)
        ensures
            copy@ == self@,
    {
        ToolInfo {
            name: self.name.clone(),
            description: match &self.description {
                Some(text) => Some(text.clone()),
                None => None,
            },
            input_schema: self.input_schema.clone(),
        }
    }
}

/// One exposed server plus its tools, handed to a backend's codegen.
#[derive(Debug)]
pub struct ServerTools {
    pub name: String,
    pub tools: Vec<ToolInfo>,
}

impl Clone for ServerTools {
    fn clone(&self) -> (copy: Self)
        ensures
            copy@ == self@,
    {
        let copy: ServerTools = ServerTools {
            name: self.name.clone(),
            tools: self.tools.clone(),
        };
        assert(tool_views(copy.tools@) =~= tool_views(self.tools@));
        copy
    }
}

/// What a [`ToolInfo`] says.
pub struct ToolView {
    pub name: Seq<char>,
    pub description: Option<Seq<char>>,
    pub input_schema: Json,
}

impl View for ToolInfo {
    type V = ToolView;

    open spec fn view(&self) -> ToolView {
        ToolView {
            name: self.name@,
            description: text::optional(self.description),
            input_schema: json::json_view(self.input_schema),
        }
    }
}

/// What the tools of a list say.
pub open spec fn tool_views(tools: Seq<ToolInfo>) -> Seq<ToolView> {
    tools.map_values(|t: ToolInfo| t@)
}

/// What a [`ServerTools`] says.
pub struct ServerView {
    pub name: Seq<char>,
    pub tools: Seq<ToolView>,
}

impl View for ServerTools {
    type V = ServerView;

    open spec fn view(&self) -> ServerView {
        ServerView { name: self.name@, tools: tool_views(self.tools@) }
    }
}

/// What the servers of a list say.
pub open spec fn server_views(servers: Seq<ServerTools>) -> Seq<ServerView> {
    servers.map_values(|s: ServerTools| s@)
}

/// What a backend can do and how the model should write code for it. The
/// surfaces render `usage_guidance` into the `execute` tool description.
#[derive(Debug, Clone)]
pub struct Capabilities {
    pub language: &'static str,
    pub supports_async: bool,
    pub hard_memory_cap: bool,
    pub usage_guidance: String,
}

impl Capabilities {
    /// The capabilities of a backend for `language` that supports async code and
    /// does not cap memory.
    pub fn new(language: &'static str, usage_guidance: &str) -> (caps: Capabilities)
        ensures
            caps.language@ == language@,
            caps.supports_async,
            !caps.hard_memory_cap,
            caps.usage_guidance@ == usage_guidance@,
    {
        Capabilities {
            language,
            supports_async: true,
            hard_memory_cap: false,
            usage_guidance: usage_guidance.to_owned(),
        }
    }
}

/// Limits applied to one execution. `Default` is conservative and safe.
#[derive(Debug)]
pub struct Limits {
    pub timeout: Duration,
    pub max_loop_iterations: u64,
    pub max_recursion_depth: usize,
    /// Max VM stack depth (the engine's stack-size limit). Bounds non-tail recursion.
    pub max_stack_size: usize,
    /// Max frames in an exception's backtrace.
    pub max_backtrace_frames: usize,
    pub max_tool_calls: u32,
    pub max_output_bytes: usize,
    /// Wall-clock timeout for a single tool call (independent of `timeout`).
    pub per_call_timeout: Duration,
}

impl Clone for Limits {
    fn clone(&self) -> (copy: Self)
        ensures
            copy == *self,
    {
        Limits {
            timeout: self.timeout,
            max_loop_iterations: self.max_loop_iterations,
            max_recursion_depth: self.max_recursion_depth,
            max_stack_size: self.max_stack_size,
            max_backtrace_frames: self.max_backtrace_frames,
            max_tool_calls: self.max_tool_calls,
            max_output_bytes: self.max_output_bytes,
            per_call_timeout: self.per_call_timeout,
        }
    }
}

/// The limits that hold where nothing else is said.
pub open spec fn is_default_limits(limits: Limits) -> bool {
    &&& time::nanos(limits.timeout) == 5 * time::NANOS_PER_SEC
    &&& limits.max_loop_iterations == 10_000_000
    &&& limits.max_recursion_depth == 400
    &&& limits.max_stack_size == 10_240
    &&& limits.max_backtrace_frames == 50
    &&& limits.max_tool_calls == 50
    &&& limits.max_output_bytes == 1_000_000
    &&& time::nanos(limits.per_call_timeout) == 30 * time::NANOS_PER_SEC
}

impl Default for Limits {
    fn default() -> (limits: Self)
        ensures
            is_default_limits(limits),
    {
        Limits {
            timeout: Duration::from_secs(5),
            max_loop_iterations: 10_000_000,
            max_recursion_depth: 400,
            max_stack_size: 10_240,
            max_backtrace_frames: 50,
            max_tool_calls: 50,
            max_output_bytes: 1_000_000,
            per_call_timeout: Duration::from_secs(30),
        }
    }
}

/// An execution-level error, visible to the model.
#[derive(Debug, Clone)]
#[non_exhaustive]
pub enum ExecError {
    /// A thrown or uncaught error.
    Exception { message: String },
    /// The wall-clock deadline elapsed.
    Timeout,
    /// A structural limit tripped (loop iterations, recursion, tool-call budget).
    Limit { what: String },
    /// Output exceeded `max_output_bytes`.
    OutputTooLarge,
}

/// What an [`ExecError`] says.
pub enum Fault {
    Exception(Seq<char>),
    Timeout,
    Limit(Seq<char>),
    OutputTooLarge,
}

impl View for ExecError {
    type V = Fault;

    open spec fn view(&self) -> Fault {
        match *self {
            ExecError::Exception { message } => Fault::Exception(message@),
            ExecError::Timeout => Fault::Timeout,
            ExecError::Limit { what } => Fault::Limit(what@),
            ExecError::OutputTooLarge => Fault::OutputTooLarge,
        }
    }
}

/// The result of running code: a returned value, captured console output, and
/// an optional execution-level error.
#[derive(Debug, Clone)]
pub struct Outcome {
    pub result: Value,
    pub logs: Vec<String>,
    pub error: Option<ExecError>,
}

impl Outcome {
    /// A run that returned a value.
    pub fn ok(result: Value, logs: Vec<String>) -> (outcome: Outcome)
        ensures
            outcome.result == result,
            outcome.logs == logs,
            outcome.error is None,
    {
        Outcome { result, logs, error: None }
    }

    /// A run that failed; its result is null.
    pub fn failed(error: ExecError, logs: Vec<String>) -> (outcome: Outcome)
        ensures
            json::json_view(outcome.result) == Json::Null,
            outcome.logs == logs,
            outcome.error == Some(error),
    {
        Outcome { result: json::null(), logs, error: Some(error) }
    }
}

/// An object is an envelope of a value: each of its members is the value, or nests no
/// deeper than a list.
pub open spec fn is_envelope(envelope: Json, value: Json) -> bool {
    envelope is Object && forall|i: int|
        0 <= i < envelope->Object_0.len() ==> (#[trigger] envelope->Object_0[i]).1 == value
            || json::nests_within(envelope->Object_0[i].1, 1)
}

/// A value that crosses the boundary can be read back out of any message of the worker
/// protocol: in its outcome, and that in its message, it stays below the nesting at
/// which the JSON reader gives up.
pub proof fn law_enveloped_values_stay_readable(value: Json, outcome: Json, message: Json)
    requires
        json::nests_within(value, (MAX_JSON_DEPTH + 1) as nat),
        is_envelope(outcome, value),
        is_envelope(message, outcome),
    ensures
        json::nests_within(message, (JSON_READER_DEPTH - 1) as nat),
{
    let depth = (MAX_JSON_DEPTH + 1) as nat;
    assert(json::nests_within(outcome, depth + 1)) by {
        assert forall|i: int| 0 <= i < outcome->Object_0.len() implies json::nests_within(
            (#[trigger] outcome->Object_0[i]).1,
            depth,
        ) by {
            if outcome->Object_0[i].1 != value {
                json::lemma_nests_within_more(outcome->Object_0[i].1, 1, depth);
            }
        }
    }
    assert(json::nests_within(message, depth + 2)) by {
        assert forall|i: int| 0 <= i < message->Object_0.len() implies json::nests_within(
            (#[trigger] message->Object_0[i]).1,
            depth + 1,
        ) by {
            if message->Object_0[i].1 != outcome {
                json::lemma_nests_within_more(message->Object_0[i].1, 1, depth + 1);
            }
        }
    }
    json::lemma_nests_within_more(message, depth + 2, (JSON_READER_DEPTH - 1) as nat);
}

/// What lists of servers and tools are said to say is what each entry holds, field by
/// field and in order.
pub proof fn law_views_say_what_is_held(
    infos: Seq<ServerInfo>,
    tools: Seq<ToolInfo>,
    servers: Seq<ServerTools>,
    i: int,
)
    ensures
        info_views(infos).len() == infos.len(),
        0 <= i < infos.len() ==> {
            &&& info_views(infos)[i].name == infos[i].name@
            &&& match infos[i].description {
                Some(text) => info_views(infos)[i].description == Some(text@),
                None => info_views(infos)[i].description is None,
            }
        },
        tool_views(tools).len() == tools.len(),
        0 <= i < tools.len() ==> {
            &&& tool_views(tools)[i].name == tools[i].name@
            &&& match tools[i].description {
                Some(text) => tool_views(tools)[i].description == Some(text@),
                None => tool_views(tools)[i].description is None,
            }
            &&& tool_views(tools)[i].input_schema == json::json_view(tools[i].input_schema)
        },
        server_views(servers).len() == servers.len(),
        0 <= i < servers.len() ==> {
            &&& server_views(servers)[i].name == servers[i].name@
            &&& server_views(servers)[i].tools == tool_views(servers[i].tools@)
        },
{
}

/// An error says its kind and its whole message.
pub proof fn law_faults_say_the_whole_message(message: String)
    ensures
        (ExecError::Exception { message })@ == Fault::Exception(message@),
        (ExecError::Limit { what: message })@ == Fault::Limit(message@),
        ExecError::Timeout@ == Fault::Timeout,
        ExecError::OutputTooLarge@ == Fault::OutputTooLarge,
{
}

} // verus!
