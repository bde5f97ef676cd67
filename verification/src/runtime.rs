//! The bridge: the only door out of the sandbox. A [`Guard`] enforces the allowlist
//! and the tool-call budget, bounds what comes back in, and scrubs internal error
//! detail before it can reach the model.

use serde_json::Value;
use vstd::prelude::*;

use crate::error::Error;
use crate::json::{self, Json};
use crate::source::{self, AllowList, Reach};
use crate::text;
use crate::types::{Limits, ServerTools, MAX_JSON_DEPTH};

verus! {

/// Why a bridge call failed, surfaced to the code as an exception.
#[derive(Debug, Clone)]
#[non_exhaustive]
pub enum BridgeError {
    Denied { server: String, tool: String },
    BudgetExceeded,
    Call(String),
}

/// What a [`BridgeError`] says.
pub enum Refusal {
    Denied(Seq<char>, Seq<char>),
    BudgetExceeded,
    Call(Seq<char>),
}

impl View for BridgeError {
    type V = Refusal;

    open spec fn view(&self) -> Refusal {
        match *self {
            BridgeError::Denied { server, tool } => Refusal::Denied(server@, tool@),
            BridgeError::BudgetExceeded => Refusal::BudgetExceeded,
            BridgeError::Call(message) => Refusal::Call(message@),
        }
    }
}

/// What a refusal is rendered as.
pub open spec fn refusal_text(refusal: Refusal) -> Seq<char> {
    match refusal {
        Refusal::Denied(server, tool) => "tool '"@ + server + "/"@ + tool
            + "' is not exposed for this run"@,
        Refusal::BudgetExceeded => "tool-call budget exceeded"@,
        Refusal::Call(message) => message,
    }
}

impl BridgeError {
    /// The error, rendered for the model's code.
    pub fn message(&self) -> (out: String)
        ensures
            out@ == refusal_text(self@),
    {
        match self {
            BridgeError::Denied { server, tool } => {
                let mut out: String = String::new();
                out.push_str("tool '");
                out.push_str(server.as_str());
                out.push_str("/");
                out.push_str(tool.as_str());
                out.push_str("' is not exposed for this run");
                assert(out@ =~= refusal_text(self@));
                out
            },
            BridgeError::BudgetExceeded => "tool-call budget exceeded".to_owned(),
            BridgeError::Call(message) => message.clone(),
        }
    }
}

/// Everything one execution needs but the bridge itself: the model's `source`, the
/// `servers` to generate modules for, and the `limits` to honour.
#[derive(Debug)]
#[non_exhaustive]
pub struct RunRequest {
    /// The model-written program to run.
    pub source: String,
    /// The servers exposed to this run; the backend generates one module each.
    pub servers: Vec<ServerTools>,
    /// The resource limits to apply.
    pub limits: Limits,
}

impl RunRequest {
    /// Assembles a request for one execution.
    pub fn new(source: String, servers: Vec<ServerTools>, limits: Limits) -> (request: Self)
        ensures
            request.source == source,
            request.servers == servers,
            request.limits == limits,
    {
        RunRequest { source, servers, limits }
    }
}

/// What came of a call to a tool.
#[derive(Debug)]
pub enum Reply {
    /// The tool answered.
    Answered(Value),
    /// The call failed.
    Failed(Error),
    /// The call took too long.
    TimedOut,
}

/// What the model's code gets to see of a reply. A tool's own error message is
/// intentional and safe to show; other errors can carry paths or arguments, so
/// nothing of them is shown.
pub open spec fn shown(reply: Reply, max_output_bytes: nat) -> Result<Json, Refusal> {
    match reply {
        Reply::Failed(Error::Tool(message)) => Err(Refusal::Call(message@)),
        Reply::Failed(_) => Err(Refusal::Call("tool call failed"@)),
        Reply::TimedOut => Err(Refusal::Call("tool call timed out"@)),
        Reply::Answered(value) => {
            let json = json::json_view(value);
            if !json::nests_within(json, MAX_JSON_DEPTH as nat) {
                Err(Refusal::Call("tool result is nested too deeply"@))
            } else if text::byte_len(json::json_text(json)) > max_output_bytes {
                Err(Refusal::Call("tool result too large"@))
            } else {
                Ok(json)
            }
        },
    }
}

/// Turns a tool's reply into what the model's code gets: the value within its bounds,
/// or an error.
pub fn settle(reply: Reply, max_output_bytes: usize) -> (result: Result<Value, BridgeError>)
    ensures
        match shown(reply, max_output_bytes as nat) {
            Ok(json) => result is Ok && json::json_view(result->Ok_0) == json && reply
                == Reply::Answered(result->Ok_0),
            Err(refusal) => result is Err && result->Err_0@ == refusal,
        },
{
    match reply {
        Reply::Failed(Error::Tool(message)) => Err(BridgeError::Call(message)),
        Reply::Failed(_) => Err(BridgeError::Call("tool call failed".to_owned())),
        Reply::TimedOut => Err(BridgeError::Call("tool call timed out".to_owned())),
        Reply::Answered(value) => {
            if !json::depth_within(&value, MAX_JSON_DEPTH) {
                Err(BridgeError::Call("tool result is nested too deeply".to_owned()))
            } else if !json::serialized_within(&value, max_output_bytes) {
                Err(BridgeError::Call("tool result too large".to_owned()))
            } else {
                Ok(value)
            }
        },
    }
}

/// The detail of a failed call that is kept from the model's code, for the log of the
/// host. A tool's own error is shown, so there is nothing to add.
pub fn withheld_detail(error: &Error) -> (detail: Option<String>)
    ensures
        text::optional(detail) == match *error {
            Error::Tool(_) => None::<Seq<char>>,
            _ => Some(crate::error::error_text(*error)),
        },
{
    match error {
        Error::Tool(_) => None,
        _ => Some(error.message()),
    }
}

/// The guard of one execution: which calls of the model's code go through.
#[derive(Debug)]
pub struct Guard {
    allow: AllowList,
    used: u32,
    max_calls: u32,
}

/// The state of a [`Guard`].
#[verifier::ext_equal]
pub struct GuardState {
    pub allow: Map<Seq<char>, Reach>,
    pub used: nat,
    pub max_calls: nat,
}

impl View for Guard {
    type V = GuardState;

    closed spec fn view(&self) -> GuardState {
        GuardState {
            allow: self.allow@,
            used: self.used as nat,
            max_calls: self.max_calls as nat,
        }
    }
}

/// What a call makes of the guard, and why it does not go through where it does not.
pub open spec fn admitted(guard: GuardState, server: Seq<char>, tool: Seq<char>) -> (
    GuardState,
    Result<(), Refusal>,
) {
    if !source::permits(guard.allow, server, tool) {
        (guard, Err(Refusal::Denied(server, tool)))
    } else if guard.used >= guard.max_calls {
        (guard, Err(Refusal::BudgetExceeded))
    } else {
        (GuardState { used: guard.used + 1, ..guard }, Ok(()))
    }
}

impl Guard {
    /// The guard of an execution that has made no call yet.
    pub fn new(allow: AllowList, max_calls: u32) -> (guard: Guard)
        ensures
            guard@ == (GuardState { allow: allow@, used: 0, max_calls: max_calls as nat }),
    {
        Guard { allow, used: 0, max_calls }
    }

    /// Lets a call through, or says why not. Only a call that goes through draws on
    /// the budget.
    pub fn enter(&mut self, server: &str, tool: &str) -> (passed: Result<(), BridgeError>)
        ensures
            final(self)@ == admitted(old(self)@, server@, tool@).0,
            match admitted(old(self)@, server@, tool@).1 {
                Ok(_) => passed is Ok,
                Err(refusal) => passed is Err && passed->Err_0@ == refusal,
            },
    {
        if !self.allow.allows(server, tool) {
            return Err(BridgeError::Denied { server: server.to_owned(), tool: tool.to_owned() });
        }
        if self.used >= self.max_calls {
            return Err(BridgeError::BudgetExceeded);
        }
        self.used = self.used + 1;
        Ok(())
    }
}

/// How many of these calls, made one after another, go through.
pub open spec fn passes(guard: GuardState, calls: Seq<(Seq<char>, Seq<char>)>) -> nat
    decreases calls.len(),
{
    if calls.len() == 0 {
        0
    } else {
        let (next, passed) = admitted(guard, calls[0].0, calls[0].1);
        passes(next, calls.skip(1)) + (if passed is Ok {
            1nat
        } else {
            0nat
        })
    }
}

/// How many of these calls are to exposed tools.
pub open spec fn exposed_calls(
    allow: Map<Seq<char>, Reach>,
    calls: Seq<(Seq<char>, Seq<char>)>,
) -> nat
    decreases calls.len(),
{
    if calls.len() == 0 {
        0
    } else {
        exposed_calls(allow, calls.skip(1)) + (if source::permits(allow, calls[0].0, calls[0].1) {
            1nat
        } else {
            0nat
        })
    }
}

/// Over any sequence of calls exactly as many go through as are to exposed tools,
/// until the budget is used up: never more than the budget, and a denied call takes
/// nothing from it.
pub proof fn law_budget_bounds_the_calls(guard: GuardState, calls: Seq<(Seq<char>, Seq<char>)>)
    requires
        guard.used <= guard.max_calls,
    ensures
        ({
            let left = (guard.max_calls - guard.used) as nat;
            let exposed = exposed_calls(guard.allow, calls);
            passes(guard, calls) == if exposed <= left {
                exposed
            } else {
                left
            }
        }),
    decreases calls.len(),
{
    if calls.len() > 0 {
        law_budget_bounds_the_calls(
            admitted(guard, calls[0].0, calls[0].1).0,
            calls.skip(1),
        );
    }
}

/// A call goes through only to a tool that is exposed, however the code came to make
/// it; what is not exposed is named in the refusal and nothing else happens.
pub proof fn law_only_exposed_tools_are_reached(
    guard: GuardState,
    server: Seq<char>,
    tool: Seq<char>,
)
    ensures
        admitted(guard, server, tool).1 is Ok ==> source::permits(guard.allow, server, tool),
        !source::permits(guard.allow, server, tool) ==> admitted(guard, server, tool) == (
            guard,
            Err::<(), Refusal>(Refusal::Denied(server, tool)),
        ),
{
}

/// Whatever reaches the model's code is within the output cap and nests no deeper
/// than a boundary-crossing value may.
pub proof fn law_delivered_answers_are_bounded(reply: Reply, max_output_bytes: nat)
    ensures
        shown(reply, max_output_bytes) matches Ok(json) ==> text::byte_len(json::json_text(json))
            <= max_output_bytes && json::nests_within(json, MAX_JSON_DEPTH as nat),
{
}

/// Errors that are not a tool's own look all alike to the model's code, so nothing of
/// their detail can leak.
pub proof fn law_internal_errors_look_alike(a: Error, b: Error, max_output_bytes: nat)
    requires
        !(a is Tool),
        !(b is Tool),
    ensures
        shown(Reply::Failed(a), max_output_bytes) == shown(Reply::Failed(b), max_output_bytes),
{
}

/// A tool's answer reaches the code as it is wherever it is within its bounds, whatever it
/// holds; one that nests too deeply or is too large is refused, and only such a one.
pub proof fn law_answers_within_bounds_are_delivered(value: Value, max_output_bytes: nat)
    ensures
        ({
            let json = json::json_view(value);
            let answer = shown(Reply::Answered(value), max_output_bytes);
            &&& json::nesting(json) <= MAX_JSON_DEPTH && text::byte_len(json::json_text(json))
                <= max_output_bytes ==> answer == Ok::<Json, Refusal>(json)
            &&& json::nesting(json) > MAX_JSON_DEPTH ==> answer == Err::<Json, Refusal>(
                Refusal::Call("tool result is nested too deeply"@),
            )
            &&& json::nesting(json) <= MAX_JSON_DEPTH && text::byte_len(json::json_text(json))
                > max_output_bytes ==> answer == Err::<Json, Refusal>(
                Refusal::Call("tool result too large"@),
            )
        }),
{
    json::law_nesting_is_bounded_exactly(json::json_view(value), MAX_JSON_DEPTH as nat);
}

/// A tool's own error reaches the code in full, for any message and any cap; a call that
/// took too long and one that failed for another reason are told apart from it.
pub proof fn law_tool_errors_are_shown_in_full(message: String, other: Error, max_output_bytes: nat)
    requires
        !(other is Tool),
    ensures
        shown(Reply::Failed(Error::Tool(message)), max_output_bytes) == Err::<Json, Refusal>(
            Refusal::Call(message@),
        ),
        shown(Reply::Failed(other), max_output_bytes) == Err::<Json, Refusal>(
            Refusal::Call("tool call failed"@),
        ),
        shown(Reply::TimedOut, max_output_bytes) == Err::<Json, Refusal>(
            Refusal::Call("tool call timed out"@),
        ),
{
}

/// A refusal is rendered with everything that it says.
pub proof fn law_refusals_tell_everything(server: String, tool: String, message: String)
    ensures
        refusal_text((BridgeError::Denied { server, tool })@) == "tool '"@ + server@ + "/"@ + tool@
            + "' is not exposed for this run"@,
        refusal_text(BridgeError::BudgetExceeded@) == "tool-call budget exceeded"@,
        refusal_text(BridgeError::Call(message)@) == message@,
{
}

/// A call to an exposed tool goes through as long as there is budget, takes one call of it
/// and changes nothing else; without budget it is refused for that reason and for no other.
pub proof fn law_exposed_calls_draw_on_the_budget(
    guard: GuardState,
    server: Seq<char>,
    tool: Seq<char>,
)
    requires
        guard.allow.dom().contains(server),
        guard.allow[server] is All || (guard.allow[server] matches Reach::Only(tools)
            && tools.contains(tool)),
    ensures
        ({
            let (next, passed) = admitted(guard, server, tool);
            &&& next.allow == guard.allow && next.max_calls == guard.max_calls
            &&& guard.used < guard.max_calls ==> passed is Ok && next.used == guard.used + 1
            &&& guard.used >= guard.max_calls ==> next.used == guard.used && passed == Err::<
                (),
                Refusal,
            >(Refusal::BudgetExceeded)
        }),
{
}

/// A call to a tool that is not exposed is denied by name and takes nothing from the
/// budget.
pub proof fn law_other_calls_are_denied(guard: GuardState, server: Seq<char>, tool: Seq<char>)
    requires
        !guard.allow.dom().contains(server) || (guard.allow[server] matches Reach::Only(tools)
            && !tools.contains(tool)),
    ensures
        admitted(guard, server, tool) == (
            guard,
            Err::<(), Refusal>(Refusal::Denied(server, tool)),
        ),
{
}

/// An error says its kind and all that it holds.
pub proof fn law_bridge_errors_say_what_they_hold(server: String, tool: String, message: String)
    ensures
        (BridgeError::Denied { server, tool })@ == Refusal::Denied(server@, tool@),
        BridgeError::BudgetExceeded@ == Refusal::BudgetExceeded,
        BridgeError::Call(message)@ == Refusal::Call(message@),
{
}

} // verus!
