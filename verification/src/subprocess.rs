//! Subprocess isolation: the model's code runs in a child process under OS resource
//! limits. The child never holds secrets or connections; every tool call is proxied
//! back to the parent over a tiny protocol, one JSON message per line, and serviced
//! by the same bridge the in-process engine would use.

use std::path::PathBuf;
use std::time::Duration;

use serde_json::Value;
use vstd::prelude::*;

use crate::boa::Boa;
use crate::json::{self, Json};
use crate::runtime::{self, BridgeError, Refusal, RunRequest};
use crate::text;
use crate::time;
use crate::types::{Capabilities, ExecError, Fault, Limits, Outcome, ServerTools};

verus! {

/// A path of `std`, carried through.
#[verifier::external_type_specification]
#[verifier::external_body]
pub struct ExPathBuf(std::path::PathBuf);

/// `Clone` of `std::path::PathBuf`: the same path.
pub assume_specification[ <std::path::PathBuf as Clone>::clone ](path: &std::path::PathBuf) -> (copy:
    std::path::PathBuf)
    ensures
        copy == *path,
;

/// Hard cap on a single protocol line. Payloads are already bounded by the run's
/// `max_output_bytes` (results) and by the worker's memory cap (the heap that builds
/// tool-call arguments), but the *parent* is a separate process not covered by the
/// worker's cap, so it bounds incoming lines explicitly to stop a giant tool-call
/// argument from exhausting its memory.
pub const MAX_LINE_BYTES: usize = 64 * 1024 * 1024;

/// The memory cap of a worker, unless another one is set.
pub const DEFAULT_MAX_MEMORY_BYTES: u64 = 512 * 1024 * 1024;

/// The job the parent sends the worker. The worker caps its own address space by
/// `max_memory_bytes`, which is why the cap travels in the job.
#[derive(Debug)]
pub struct Job {
    pub source: String,
    pub servers: Vec<ServerTools>,
    pub limits: WireLimits,
    pub max_memory_bytes: u64,
}

/// [`Limits`] in plain numbers: durations as milliseconds.
#[derive(Debug, Clone, Copy)]
pub struct WireLimits {
    pub timeout_ms: u64,
    pub max_loop_iterations: u64,
    pub max_recursion_depth: usize,
    pub max_stack_size: usize,
    pub max_backtrace_frames: usize,
    pub max_tool_calls: u32,
    pub max_output_bytes: usize,
    pub per_call_timeout_ms: u64,
}

/// The whole milliseconds of a duration, as far as 64 bits hold them.
pub open spec fn wire_millis(duration: Duration) -> nat {
    time::low_bits(time::nanos(duration) / time::NANOS_PER_MILLI as nat)
}

/// The numbers stand for these limits.
pub open spec fn stands_for(wire: WireLimits, limits: Limits) -> bool {
    &&& wire.timeout_ms == wire_millis(limits.timeout)
    &&& wire.max_loop_iterations == limits.max_loop_iterations
    &&& wire.max_recursion_depth == limits.max_recursion_depth
    &&& wire.max_stack_size == limits.max_stack_size
    &&& wire.max_backtrace_frames == limits.max_backtrace_frames
    &&& wire.max_tool_calls == limits.max_tool_calls
    &&& wire.max_output_bytes == limits.max_output_bytes
    &&& wire.per_call_timeout_ms == wire_millis(limits.per_call_timeout)
}

/// The limits are those that the numbers say.
pub open spec fn read_from(limits: Limits, wire: WireLimits) -> bool {
    &&& time::nanos(limits.timeout) == wire.timeout_ms * time::NANOS_PER_MILLI
    &&& limits.max_loop_iterations == wire.max_loop_iterations
    &&& limits.max_recursion_depth == wire.max_recursion_depth
    &&& limits.max_stack_size == wire.max_stack_size
    &&& limits.max_backtrace_frames == wire.max_backtrace_frames
    &&& limits.max_tool_calls == wire.max_tool_calls
    &&& limits.max_output_bytes == wire.max_output_bytes
    &&& time::nanos(limits.per_call_timeout) == wire.per_call_timeout_ms * time::NANOS_PER_MILLI
}

fn to_wire_millis(duration: &Duration) -> (ms: u64)
    ensures
        ms == wire_millis(*duration),
{
    time::low_half(duration.as_millis())
}

impl WireLimits {
    /// The limits in plain numbers.
    pub fn from_limits(limits: &Limits) -> (wire: WireLimits)
        ensures
            stands_for(wire, *limits),
    {
        WireLimits {
            timeout_ms: to_wire_millis(&limits.timeout),
            max_loop_iterations: limits.max_loop_iterations,
            max_recursion_depth: limits.max_recursion_depth,
            max_stack_size: limits.max_stack_size,
            max_backtrace_frames: limits.max_backtrace_frames,
            max_tool_calls: limits.max_tool_calls,
            max_output_bytes: limits.max_output_bytes,
            per_call_timeout_ms: to_wire_millis(&limits.per_call_timeout),
        }
    }

    /// The limits that the numbers say.
    pub fn into_limits(self) -> (limits: Limits)
        ensures
            read_from(limits, self),
    {
        Limits {
            timeout: Duration::from_millis(self.timeout_ms),
            max_loop_iterations: self.max_loop_iterations,
            max_recursion_depth: self.max_recursion_depth,
            max_stack_size: self.max_stack_size,
            max_backtrace_frames: self.max_backtrace_frames,
            max_tool_calls: self.max_tool_calls,
            max_output_bytes: self.max_output_bytes,
            per_call_timeout: Duration::from_millis(self.per_call_timeout_ms),
        }
    }
}

/// A duration of whole milliseconds that 64 bits hold.
pub open spec fn is_whole_millis(duration: Duration) -> bool {
    &&& time::nanos(duration) % time::NANOS_PER_MILLI as nat == 0
    &&& time::nanos(duration) / (time::NANOS_PER_MILLI as nat) <= u64::MAX
}

/// A worker gets the limits that its parent has: they cross the wire unchanged, as long
/// as their times are whole milliseconds.
pub proof fn law_limits_cross_the_wire(sent: Limits, wire: WireLimits, received: Limits)
    requires
        is_whole_millis(sent.timeout),
        is_whole_millis(sent.per_call_timeout),
        stands_for(wire, sent),
        read_from(received, wire),
    ensures
        time::nanos(received.timeout) == time::nanos(sent.timeout),
        time::nanos(received.per_call_timeout) == time::nanos(sent.per_call_timeout),
        received.max_loop_iterations == sent.max_loop_iterations,
        received.max_recursion_depth == sent.max_recursion_depth,
        received.max_stack_size == sent.max_stack_size,
        received.max_backtrace_frames == sent.max_backtrace_frames,
        received.max_tool_calls == sent.max_tool_calls,
        received.max_output_bytes == sent.max_output_bytes,
{
}

/// Numbers that were read from the wire are the same numbers when they are written
/// again, whatever they are.
pub proof fn law_wire_limits_read_back(wire: WireLimits, limits: Limits, again: WireLimits)
    requires
        read_from(limits, wire),
        stands_for(again, limits),
    ensures
        again == wire,
{
}

/// A [`RunRequest`] as a job for a worker.
pub fn job_of(request: RunRequest, max_memory_bytes: u64) -> (job: Job)
    ensures
        job.source == request.source,
        job.servers == request.servers,
        stands_for(job.limits, request.limits),
        job.max_memory_bytes == max_memory_bytes,
{
    let limits: WireLimits = WireLimits::from_limits(&request.limits);
    Job { source: request.source, servers: request.servers, limits, max_memory_bytes }
}

/// Lines the worker writes.
#[derive(Debug)]
pub enum FromWorker {
    /// A tool call the parent must service.
    Call { id: u64, server: String, tool: String, args: Value },
    /// The final result.
    Done { outcome: Outcome },
}

/// Lines the parent writes in response to a call, under the call's id. Calls can overlap,
/// so answers come in any order.
#[derive(Debug)]
pub enum ToWorker {
    Answer { id: u64, value: Value },
    Failure { id: u64, message: String },
}

/// A runtime that runs each execution in an isolated child process.
#[derive(Debug)]
pub struct SubprocessRuntime {
    worker: PathBuf,
    max_memory_bytes: u64,
}

impl Clone for SubprocessRuntime {
    fn clone(&self) -> (copy: Self)
        ensures
            copy.worker_path() == self.worker_path(),
            copy.memory_cap() == self.memory_cap(),
    {
        SubprocessRuntime {
            worker: self.worker.clone(),
            max_memory_bytes: self.max_memory_bytes,
        }
    }
}

impl SubprocessRuntime {
    /// The binary that is run as the worker.
    pub closed spec fn worker_path(self) -> PathBuf {
        self.worker
    }

    /// The memory cap of a worker.
    pub closed spec fn memory_cap(self) -> u64 {
        self.max_memory_bytes
    }

    /// Uses a specific binary as the worker.
    pub fn with_worker(worker: PathBuf) -> (runtime: Self)
        ensures
            runtime.worker_path() == worker,
            runtime.memory_cap() == DEFAULT_MAX_MEMORY_BYTES,
    {
        SubprocessRuntime { worker, max_memory_bytes: DEFAULT_MAX_MEMORY_BYTES }
    }

    /// Sets the hard memory cap for the child, in bytes. Default 512 MiB.
    pub fn max_memory_bytes(self, bytes: u64) -> (runtime: Self)
        ensures
            runtime.worker_path() == self.worker_path(),
            runtime.memory_cap() == bytes,
    {
        SubprocessRuntime { worker: self.worker, max_memory_bytes: bytes }
    }

    /// The binary that is run as the worker.
    pub fn worker(&self) -> (worker: &PathBuf)
        ensures
            *worker == self.worker_path(),
    {
        &self.worker
    }

    /// The memory cap of a worker, in bytes.
    pub fn memory_limit(&self) -> (bytes: u64)
        ensures
            bytes == self.memory_cap(),
    {
        self.max_memory_bytes
    }

    /// Same engine, just isolated, so identical guidance. The memory cap is only claimed
    /// where the system honours it.
    pub fn capabilities(&self, caps_memory: bool) -> (caps: Capabilities)
        ensures
            caps.language@ == "javascript"@,
            caps.supports_async,
            caps.hard_memory_cap == caps_memory,
            caps.usage_guidance@ == crate::boa::GUIDANCE@,
    {
        let mut caps: Capabilities = Boa::new().capabilities();
        caps.hard_memory_cap = caps_memory;
        caps
    }
}

/// The margin that a worker is given over the timeout of its run before it is killed.
pub const KILL_MARGIN_SECS: u64 = 2;

/// How long a worker may live: a small margin over the run's own timeout. Nothing where
/// that is longer than any duration.
pub fn deadline(timeout: Duration) -> (deadline: Option<Duration>)
    ensures
        match deadline {
            Some(d) => time::nanos(d) == time::nanos(timeout) + KILL_MARGIN_SECS
                * time::NANOS_PER_SEC,
            None => time::nanos(timeout) + KILL_MARGIN_SECS * time::NANOS_PER_SEC
                > time::max_nanos(),
        },
{
    timeout.checked_add(Duration::from_secs(KILL_MARGIN_SECS))
}

/// The CPU time that a worker grants itself, in seconds, as the soft and the hard limit:
/// a coarse backstop just past the run's timeout.
pub fn cpu_limits(timeout_ms: u64) -> (limits: (u64, u64))
    ensures
        limits.0 == if timeout_ms < 1000 {
            3
        } else {
            timeout_ms / 1000 + 2
        },
        limits.1 == limits.0 + 1,
{
    let seconds: u64 = timeout_ms / 1000;
    let seconds: u64 = if seconds == 0 {
        1
    } else {
        seconds
    };
    let soft: u64 = seconds.saturating_add(2);
    (soft, soft.saturating_add(1))
}

/// A worker is never cut off by its CPU limit before its run's own timeout.
pub proof fn law_cpu_limit_is_past_the_timeout(timeout_ms: u64, soft: u64)
    requires
        soft == if timeout_ms < 1000 {
            3
        } else {
            timeout_ms / 1000 + 2
        },
    ensures
        soft * 1000 > timeout_ms,
{
}

/// How the parent's side of an execution can end.
#[derive(Debug)]
pub enum ParentEnd {
    /// The worker reported its outcome.
    Reported(Outcome),
    /// The worker outlived its deadline.
    TimedOut,
    /// The worker could not be started.
    NotSpawned(String),
    /// The worker's input and output are not connected.
    NotPiped,
    /// The job could not be written as a message.
    NotEncoded(String),
    /// The job could not be sent.
    NotSent(String),
    /// The conversation broke off.
    Broken(String),
}

/// The error of an execution that ended otherwise than with an outcome of the worker.
pub open spec fn end_fault(end: ParentEnd) -> Option<Fault> {
    match end {
        ParentEnd::Reported(_) => None,
        ParentEnd::TimedOut => Some(Fault::Timeout),
        ParentEnd::NotSpawned(reason) => Some(
            Fault::Exception("could not spawn worker: "@ + reason@),
        ),
        ParentEnd::NotPiped => Some(Fault::Exception("worker stdio was not piped"@)),
        ParentEnd::NotEncoded(reason) => Some(Fault::Exception("could not encode job: "@ + reason@)),
        ParentEnd::NotSent(reason) => Some(
            Fault::Exception("could not send job to worker: "@ + reason@),
        ),
        ParentEnd::Broken(message) => Some(Fault::Exception(message@)),
    }
}

fn prefixed(head: &str, reason: String) -> (message: String)
    ensures
        message@ == head@ + reason@,
{
    let mut message: String = head.to_owned();
    message.push_str(reason.as_str());
    message
}

fn failed(message: String) -> (outcome: Outcome)
    ensures
        json::json_view(outcome.result) == Json::Null,
        outcome.logs@.len() == 0,
        outcome.error is Some,
        outcome.error->0@ == Fault::Exception(message@),
{
    Outcome::failed(ExecError::Exception { message }, Vec::new())
}

/// The outcome of an execution in a worker.
pub fn parent_outcome(end: ParentEnd) -> (outcome: Outcome)
    ensures
        match end_fault(end) {
            None => end == ParentEnd::Reported(outcome),
            Some(fault) => {
                &&& json::json_view(outcome.result) == Json::Null
                &&& outcome.logs@.len() == 0
                &&& outcome.error is Some
                &&& outcome.error->0@ == fault
            },
        },
{
    match end {
        ParentEnd::Reported(outcome) => outcome,
        ParentEnd::TimedOut => Outcome::failed(ExecError::Timeout, Vec::new()),
        ParentEnd::NotSpawned(reason) => failed(prefixed("could not spawn worker: ", reason)),
        ParentEnd::NotPiped => failed("worker stdio was not piped".to_owned()),
        ParentEnd::NotEncoded(reason) => failed(prefixed("could not encode job: ", reason)),
        ParentEnd::NotSent(reason) => failed(prefixed("could not send job to worker: ", reason)),
        ParentEnd::Broken(message) => failed(message),
    }
}

/// What happens on the parent's side of the conversation.
#[derive(Debug)]
pub enum PumpEvent {
    /// A message came from the worker.
    Received(FromWorker),
    /// The worker's output ended.
    Closed,
    /// The worker's output could not be read.
    Unreadable(String),
    /// A line was no message.
    Malformed(String),
    /// The bridge answered the call of this id.
    Answered { id: u64, result: Result<Value, BridgeError> },
    /// An answer could not be written.
    Unwritable(String),
}

/// What the parent does about it.
#[derive(Debug)]
pub enum PumpStep {
    /// Hand the call to the bridge.
    Serve { id: u64, server: String, tool: String, args: Value },
    /// Write this answer.
    Reply(ToWorker),
    /// The conversation is over.
    End(ParentEnd),
}

/// What an answer of the bridge says.
pub open spec fn answer_view(result: Result<Value, BridgeError>) -> Result<Json, Refusal> {
    match result {
        Ok(value) => Ok(json::json_view(value)),
        Err(error) => Err(error@),
    }
}

/// An answer says what the bridge said, under the call's id. Of an error its message
/// crosses the wire.
pub open spec fn answers(reply: ToWorker, id: u64, result: Result<Value, BridgeError>) -> bool {
    match result {
        Ok(value) => reply == (ToWorker::Answer { id, value }),
        Err(error) => reply matches ToWorker::Failure { id: i, message } && i == id && message@
            == runtime::refusal_text(error@),
    }
}

/// The step answers the event.
pub open spec fn pumps(event: PumpEvent, step: PumpStep) -> bool {
    match event {
        PumpEvent::Received(FromWorker::Done { outcome }) => step == PumpStep::End(
            ParentEnd::Reported(outcome),
        ),
        PumpEvent::Received(FromWorker::Call { id, server, tool, args }) => step
            == (PumpStep::Serve { id, server, tool, args }),
        PumpEvent::Closed => step matches PumpStep::End(ParentEnd::Broken(message)) && message@
            == "worker exited before producing a result (killed by a resource limit?)"@,
        PumpEvent::Unreadable(reason) => step matches PumpStep::End(ParentEnd::Broken(message))
            && message@ == "reading from worker: "@ + reason@,
        PumpEvent::Malformed(reason) => step == PumpStep::End(ParentEnd::Broken(reason)),
        PumpEvent::Answered { id, result } => step matches PumpStep::Reply(reply) && answers(
            reply,
            id,
            result,
        ),
        PumpEvent::Unwritable(reason) => step matches PumpStep::End(ParentEnd::Broken(message))
            && message@ == "writing to worker: "@ + reason@,
    }
}

/// Services the worker: its calls go to the bridge and the bridge's answers back to it,
/// until it reports a result or the conversation breaks off, as it does where the
/// worker is killed by a resource limit.
pub fn pump(event: PumpEvent) -> (step: PumpStep)
    ensures
        pumps(event, step),
{
    match event {
        PumpEvent::Received(FromWorker::Done { outcome }) => PumpStep::End(
            ParentEnd::Reported(outcome),
        ),
        PumpEvent::Received(FromWorker::Call { id, server, tool, args }) => PumpStep::Serve {
            id,
            server,
            tool,
            args,
        },
        PumpEvent::Closed => PumpStep::End(
            ParentEnd::Broken(
                "worker exited before producing a result (killed by a resource limit?)".to_owned(),
            ),
        ),
        PumpEvent::Unreadable(reason) => PumpStep::End(
            ParentEnd::Broken(prefixed("reading from worker: ", reason)),
        ),
        PumpEvent::Malformed(reason) => PumpStep::End(ParentEnd::Broken(reason)),
        PumpEvent::Answered { id, result } => PumpStep::Reply(
            match result {
                Ok(value) => ToWorker::Answer { id, value },
                Err(error) => ToWorker::Failure { id, message: error.message() },
            },
        ),
        PumpEvent::Unwritable(reason) => PumpStep::End(
            ParentEnd::Broken(prefixed("writing to worker: ", reason)),
        ),
    }
}

/// The calls of a worker that are not answered yet.
#[derive(Debug)]
pub struct PendingCalls {
    next: u64,
    open: Vec<u64>,
    closed: bool,
}

/// The state of [`PendingCalls`].
#[verifier::ext_equal]
pub struct PendingState {
    /// The id of the next call.
    pub next: nat,
    /// The ids of the calls that wait for an answer, in the order in which they were
    /// made.
    pub open: Seq<u64>,
    /// Whether the parent is gone, so that no call is answered any more.
    pub closed: bool,
}

/// Every waiting call has an id of its own, and no id is used twice. Once the parent is
/// gone no call waits.
pub open spec fn well_kept(calls: PendingState) -> bool {
    &&& forall|i: int| 0 <= i < calls.open.len() ==> (#[trigger] calls.open[i]) < calls.next
    &&& forall|i: int, j: int|
        0 <= i < j < calls.open.len() ==> (#[trigger] calls.open[i]) != (#[trigger] calls.open[j])
    &&& calls.closed ==> calls.open.len() == 0
}

/// The waiting calls but for one, in order.
pub open spec fn without(open: Seq<u64>, id: u64) -> Seq<u64> {
    open.filter(|other: u64| other != id)
}

/// The calls that are given up: the one of this id if it waits, or every waiting call.
pub open spec fn given_up(open: Seq<u64>, id: Option<u64>) -> Seq<u64> {
    match id {
        Some(id) => open.filter(|other: u64| other == id),
        None => open,
    }
}

/// The calls that still wait after some were given up.
pub open spec fn still_open(open: Seq<u64>, id: Option<u64>) -> Seq<u64> {
    match id {
        Some(id) => without(open, id),
        None => Seq::empty(),
    }
}

/// The id that an answer is for.
pub open spec fn reply_id(reply: ToWorker) -> u64 {
    match reply {
        ToWorker::Answer { id, .. } => id,
        ToWorker::Failure { id, .. } => id,
    }
}

/// What an answer says to the call that waits for it.
pub open spec fn reply_says(reply: ToWorker) -> Result<Json, Refusal> {
    match reply {
        ToWorker::Answer { value, .. } => Ok(json::json_view(value)),
        ToWorker::Failure { message, .. } => Err(Refusal::Call(message@)),
    }
}

impl View for PendingCalls {
    type V = PendingState;

    closed spec fn view(&self) -> PendingState {
        PendingState { next: self.next as nat, open: self.open@, closed: self.closed }
    }
}

impl PendingCalls {
    #[verifier::type_invariant]
    spec fn kept(self) -> bool {
        well_kept(self@)
    }

    /// No calls yet.
    pub fn new() -> (calls: Self)
        ensures
            calls@ == (PendingState { next: 0, open: Seq::empty(), closed: false }),
    {
        PendingCalls { next: 0, open: Vec::new(), closed: false }
    }

    /// Opens a call and gives it an id that no call had before. Fails where the parent is
    /// gone, and once every id was used.
    pub fn begin(&mut self) -> (id: Result<u64, BridgeError>)
        ensures
            if old(self)@.closed {
                &&& id is Err
                &&& id->Err_0@ == Refusal::Call("parent closed the connection"@)
                &&& final(self)@ == old(self)@
            } else if old(self)@.next == u64::MAX {
                &&& id is Err
                &&& id->Err_0@ == Refusal::Call("too many tool calls"@)
                &&& final(self)@ == old(self)@
            } else {
                &&& id == Ok::<u64, BridgeError>(old(self)@.next as u64)
                &&& !old(self)@.open.contains(old(self)@.next as u64)
                &&& final(self)@ == (PendingState {
                    next: old(self)@.next + 1,
                    open: old(self)@.open.push(old(self)@.next as u64),
                    closed: false,
                })
            },
            well_kept(final(self)@),
    {
        proof {
            use_type_invariant(&*self);
        }
        if self.closed {
            return Err(closed_error());
        }
        if self.next == u64::MAX {
            return Err(BridgeError::Call("too many tool calls".to_owned()));
        }
        let id: u64 = self.next;
        let ghost before = self@.open;
        let mut open: Vec<u64> = self.take_open();
        open.push(id);
        proof {
            assert forall|i: int| 0 <= i < open@.len() implies (#[trigger] open@[i]) < id + 1 by {
                if i < before.len() {
                    assert(open@[i] == before[i]);
                }
            }
            assert forall|i: int, j: int| 0 <= i < j < open@.len() implies (#[trigger] open@[i])
                != (#[trigger] open@[j]) by {
                assert(open@[i] == before[i]);
                if j < before.len() {
                    assert(open@[j] == before[j]);
                }
            }
        }
        *self = PendingCalls { next: id + 1, open, closed: false };
        Ok(id)
    }

    fn take_open(&mut self) -> (open: Vec<u64>)
        ensures
            open@ == old(self)@.open,
    {
        let mut empty: PendingCalls = PendingCalls::new();
        std::mem::swap(self, &mut empty);
        empty.open
    }

    /// Ends the waiting of a call; says whether it waited.
    fn release(&mut self, id: u64) -> (waited: bool)
        ensures
            waited == old(self)@.open.contains(id),
            final(self)@ == (PendingState {
                open: without(old(self)@.open, id),
                ..old(self)@
            }),
            old(self)@.open.filter(|other: u64| other == id) == if waited {
                seq![id]
            } else {
                Seq::empty()
            },
            well_kept(final(self)@),
    {
        proof {
            use_type_invariant(&*self);
        }
        let next: u64 = self.next;
        let closed: bool = self.closed;
        let open: Vec<u64> = self.take_open();
        let mut left: Vec<u64> = Vec::new();
        let mut waited: bool = false;
        let mut i: usize = 0;
        while i < open.len()
            invariant
                i <= open@.len(),
                forall|j: int| 0 <= j < open@.len() ==> (#[trigger] open@[j]) < next,
                forall|a: int, b: int|
                    0 <= a < b < open@.len() ==> (#[trigger] open@[a]) != (#[trigger] open@[b]),
                left@ == without(open@.take(i as int), id),
                forall|j: int|
                    0 <= j < left@.len() ==> (#[trigger] left@[j]) < next && open@.take(
                        i as int,
                    ).contains(left@[j]),
                forall|a: int, b: int|
                    0 <= a < b < left@.len() ==> (#[trigger] left@[a]) != (#[trigger] left@[b]),
                left@.len() <= i,
                waited == open@.take(i as int).contains(id),
                open@.take(i as int).filter(|other: u64| other == id) == if waited {
                    seq![id]
                } else {
                    Seq::empty()
                },
            decreases open@.len() - i,
        {
            let other: u64 = open[i];
            let ghost front = open@.take(i as int);
            proof {
                reveal(Seq::filter);
                let more = open@.take(i + 1);
                assert(more =~= front.push(other));
                assert(more.drop_last() =~= front);
                assert(!front.contains(other));
                assert forall|x: u64| #[trigger] front.contains(x) implies more.contains(x) by {
                    let k = choose|k: int| 0 <= k < front.len() && front[k] == x;
                    assert(more[k] == x);
                }
                assert(more[i as int] == other);
                assert forall|x: u64| #[trigger] more.contains(x) implies x == other
                    || front.contains(x) by {
                    let k = choose|k: int| 0 <= k < more.len() && more[k] == x;
                    if k < i {
                        assert(front[k] == x);
                    }
                }
            }
            if other == id {
                waited = true;
                assert(open@.take(i + 1).filter(|other: u64| other == id) =~= seq![id]);
            } else {
                left.push(other);
            }
            i = i + 1;
        }
        assert(open@.take(i as int) =~= open@);
        *self = PendingCalls { next, open: left, closed };
        waited
    }

    /// Matches an answer to the call that waits for it, which then waits no longer. An
    /// answer that no call waits for is dropped.
    pub fn settle(&mut self, reply: ToWorker) -> (answer: Option<(u64, Result<Value, BridgeError>)>)
        ensures
            final(self)@ == (PendingState {
                open: without(old(self)@.open, reply_id(reply)),
                ..old(self)@
            }),
            match answer {
                Some((id, result)) => {
                    &&& id == reply_id(reply)
                    &&& old(self)@.open.contains(id)
                    &&& answer_view(result) == reply_says(reply)
                },
                None => !old(self)@.open.contains(reply_id(reply)),
            },
            well_kept(final(self)@),
    {
        let (id, result): (u64, Result<Value, BridgeError>) = match reply {
            ToWorker::Answer { id, value } => (id, Ok(value)),
            ToWorker::Failure { id, message } => (id, Err(BridgeError::Call(message))),
        };
        if self.release(id) {
            Some((id, result))
        } else {
            None
        }
    }

    /// Gives up on a call that will not be answered, because it could not be sent or its
    /// answer could not be read. Where an unreadable answer does not even say which call
    /// it was for, every waiting call is given up, since one of them would wait for ever.
    /// Calls made later are not concerned.
    pub fn abandon(&mut self, id: Option<u64>) -> (abandoned: Vec<u64>)
        ensures
            abandoned@ == given_up(old(self)@.open, id),
            final(self)@ == (PendingState {
                open: still_open(old(self)@.open, id),
                ..old(self)@
            }),
            well_kept(final(self)@),
    {
        match id {
            Some(id) => {
                let mut abandoned: Vec<u64> = Vec::new();
                if self.release(id) {
                    abandoned.push(id);
                }
                abandoned
            },
            None => {
                let next: u64 = self.next;
                let closed: bool = self.closed;
                let abandoned: Vec<u64> = self.take_open();
                *self = PendingCalls { next, open: Vec::new(), closed };
                abandoned
            },
        }
    }

    /// Gives up on every call that waits for an answer, because no answer will come any
    /// more: neither to these calls nor to later ones.
    pub fn close(&mut self) -> (abandoned: Vec<u64>)
        ensures
            abandoned@ == old(self)@.open,
            final(self)@ == (PendingState {
                next: old(self)@.next,
                open: Seq::empty(),
                closed: true,
            }),
            well_kept(final(self)@),
    {
        let next: u64 = self.next;
        let abandoned: Vec<u64> = self.take_open();
        *self = PendingCalls { next, open: Vec::new(), closed: true };
        abandoned
    }
}

/// A call that is released takes no other call with it.
pub proof fn law_release_concerns_one_call(open: Seq<u64>, id: u64, other: u64)
    ensures
        without(open, id).contains(other) <==> other != id && open.contains(other),
    decreases open.len(),
{
    broadcast use vstd::seq_lib::group_seq_properties;

    reveal(Seq::filter);
    if open.len() > 0 {
        let rest = open.drop_last();
        law_release_concerns_one_call(rest, id, other);
        assert(open =~= rest.push(open.last()));
    }
}

/// The error of a call whose parent is gone.
pub fn closed_error() -> (error: BridgeError)
    ensures
        error@ == Refusal::Call("parent closed the connection"@),
{
    BridgeError::Call("parent closed the connection".to_owned())
}

/// A call that a worker makes gets what the bridge answered in the parent: the value as
/// it is, or the message of the error.
pub proof fn law_answers_cross_the_wire(id: u64, result: Result<Value, BridgeError>, step: PumpStep)
    requires
        pumps((PumpEvent::Answered { id, result }), step),
    ensures
        step matches PumpStep::Reply(reply) && reply_id(reply) == id && match (
            answer_view(result),
            reply_says(reply),
        ) {
            (Ok(sent), Ok(received)) => sent == received,
            (Err(sent), Err(received)) => runtime::refusal_text(sent) == runtime::refusal_text(
                received,
            ),
            _ => false,
        },
{
}

/// Reads lines out of chunks of bytes, none longer than its cap, so that a peer can't
/// force unbounded allocation.
#[derive(Debug)]
pub struct LineReader {
    buf: Vec<u8>,
    max: usize,
}

/// What a reader makes of a chunk.
#[derive(Debug)]
pub enum Fed {
    /// A line is complete.
    Line(String),
    /// The line goes on.
    More,
    /// The line is too long.
    TooLong,
    /// The input ended. Every message ends in a line break, so the end before one means
    /// a truncated or absent message.
    End,
}

/// The position of the first line break; the length where there is none.
pub open spec fn break_at(bytes: Seq<u8>) -> nat
    decreases bytes.len(),
{
    if bytes.len() == 0 || bytes[0] == 10 {
        0
    } else {
        1 + break_at(bytes.skip(1))
    }
}

/// What reading a line out of a whole input comes to.
pub enum Reading {
    /// A line, and what follows it.
    Line(Seq<u8>, Seq<u8>),
    /// A line that is too long.
    TooLong,
    /// No complete line.
    End,
}

/// Reads one line out of an input.
pub open spec fn read_line(input: Seq<u8>, max: nat) -> Reading {
    let p = break_at(input);
    if p > max {
        Reading::TooLong
    } else if p < input.len() {
        Reading::Line(input.take(p as int), input.skip(p as int + 1))
    } else {
        Reading::End
    }
}

/// What a reader makes of one more chunk: the bytes of a complete line and how much of
/// the chunk was used, the bytes held where the line goes on, or how much of the chunk
/// was used where the line is too long.
pub enum Taken {
    Line(Seq<u8>, nat),
    More(Seq<u8>),
    TooLong(nat),
    End,
}

/// What a chunk makes of a reader that holds `buf`.
pub open spec fn taken(buf: Seq<u8>, chunk: Seq<u8>, max: nat) -> Taken {
    let p = break_at(chunk);
    if chunk.len() == 0 {
        Taken::End
    } else if buf.len() + p > max {
        Taken::TooLong(
            if p < chunk.len() {
                0
            } else {
                chunk.len()
            },
        )
    } else if p < chunk.len() {
        Taken::Line(buf + chunk.take(p as int), p + 1)
    } else {
        Taken::More(buf + chunk)
    }
}

proof fn lemma_break_at(bytes: Seq<u8>, p: int)
    requires
        0 <= p <= bytes.len(),
        forall|i: int| 0 <= i < p ==> bytes[i] != 10,
        p < bytes.len() ==> bytes[p] == 10,
    ensures
        break_at(bytes) == p,
    decreases p,
{
    if p > 0 {
        assert(bytes[0] != 10);
        assert forall|i: int| 0 <= i < p - 1 implies bytes.skip(1)[i] != 10 by {
            assert(bytes[i + 1] != 10);
        }
        assert(p < bytes.len() ==> bytes.skip(1)[p - 1] == bytes[p]);
        lemma_break_at(bytes.skip(1), p - 1);
    }
}

proof fn lemma_break_at_facts(bytes: Seq<u8>)
    ensures
        break_at(bytes) <= bytes.len(),
        forall|i: int| 0 <= i < break_at(bytes) ==> bytes[i] != 10,
        break_at(bytes) < bytes.len() ==> bytes[break_at(bytes) as int] == 10,
    decreases bytes.len(),
{
    if bytes.len() > 0 && bytes[0] != 10 {
        lemma_break_at_facts(bytes.skip(1));
        assert forall|i: int| 0 <= i < break_at(bytes) implies bytes[i] != 10 by {
            if i > 0 {
                assert(bytes.skip(1)[i - 1] == bytes[i]);
            }
        }
        assert(break_at(bytes) < bytes.len() ==> bytes.skip(1)[break_at(bytes) - 1]
            == bytes[break_at(bytes) as int]);
    }
}

impl LineReader {
    /// What the reader holds of the current line.
    pub closed spec fn held(self) -> Seq<u8> {
        self.buf@
    }

    /// The cap on a line.
    pub closed spec fn max(self) -> nat {
        self.max as nat
    }

    /// A reader at the start of a line.
    pub fn new(max: usize) -> (reader: LineReader)
        ensures
            reader.held() == Seq::<u8>::empty(),
            reader.max() == max,
    {
        LineReader { buf: Vec::new(), max }
    }

    /// Takes the next chunk of the input; an empty one says that the input ended. Returns
    /// how many bytes of the chunk were used. A complete line is read as UTF-8, with
    /// whatever is malformed replaced.
    pub fn feed(&mut self, chunk: &[u8]) -> (fed: (usize, Fed))
        ensures
            final(self).max() == old(self).max(),
            match taken(old(self).held(), chunk@, old(self).max()) {
                Taken::Line(bytes, used) => {
                    &&& fed.0 == used
                    &&& fed.1 matches Fed::Line(line)
                    &&& line@ == text::lossy(bytes)
                    &&& vstd::utf8::valid_utf8(bytes) ==> line@ == vstd::utf8::decode_utf8(bytes)
                    &&& final(self).held() == Seq::<u8>::empty()
                },
                Taken::More(bytes) => {
                    &&& fed.0 == chunk@.len()
                    &&& fed.1 is More
                    &&& final(self).held() == bytes
                },
                Taken::TooLong(used) => fed.0 == used && fed.1 is TooLong && final(self).held()
                    == old(self).held(),
                Taken::End => fed.0 == 0 && fed.1 is End && final(self).held() == old(self).held(),
            },
    {
        let n: usize = chunk.len();
        if n == 0 {
            return (0, Fed::End);
        }
        let mut p: usize = 0;
        while p < n && chunk[p] != 10
            invariant
                n == chunk@.len(),
                p <= n,
                forall|i: int| 0 <= i < p ==> chunk@[i] != 10,
            decreases n - p,
        {
            p = p + 1;
        }
        proof {
            lemma_break_at(chunk@, p as int);
        }
        if self.buf.len() > self.max || p > self.max - self.buf.len() {
            // A line that ends in this chunk is left in it.
            let used: usize = if p < n {
                0
            } else {
                n
            };
            return (used, Fed::TooLong);
        }
        let ghost before = self.buf@;
        let mut i: usize = 0;
        assert(self.buf@ =~= before + chunk@.take(0));
        while i < p
            invariant
                n == chunk@.len(),
                p <= n,
                i <= p,
                self.max == old(self).max,
                self.buf@ == before + chunk@.take(i as int),
            decreases p - i,
        {
            self.buf.push(chunk[i]);
            assert(chunk@.take(i + 1) =~= chunk@.take(i as int).push(chunk@[i as int]));
            assert(self.buf@ =~= before + chunk@.take(i + 1));
            i = i + 1;
        }
        if p < n {
            let line: String = text::from_utf8_lossy(self.buf.as_slice());
            self.buf.clear();
            (p + 1, Fed::Line(line))
        } else {
            assert(chunk@.take(p as int) =~= chunk@);
            (n, Fed::More)
        }
    }
}

/// What reading a line out of an input comes to when the input arrives in these chunks.
pub open spec fn read_chunks(buf: Seq<u8>, chunks: Seq<Seq<u8>>, max: nat) -> Reading
    decreases chunks.len(),
{
    if chunks.len() == 0 {
        Reading::End
    } else {
        match taken(buf, chunks[0], max) {
            Taken::Line(bytes, used) => Reading::Line(
                bytes,
                chunks[0].skip(used as int) + chunks.skip(1).flatten(),
            ),
            Taken::More(bytes) => read_chunks(bytes, chunks.skip(1), max),
            Taken::TooLong(_) => Reading::TooLong,
            Taken::End => Reading::End,
        }
    }
}

proof fn lemma_taken(buf: Seq<u8>, chunk: Seq<u8>, rest: Seq<u8>, max: nat)
    requires
        chunk.len() > 0,
        buf.len() <= max,
        forall|i: int| 0 <= i < buf.len() ==> buf[i] != 10,
    ensures
        match taken(buf, chunk, max) {
            Taken::Line(bytes, used) => read_line(buf + (chunk + rest), max) == Reading::Line(
                bytes,
                chunk.skip(used as int) + rest,
            ),
            Taken::More(bytes) => {
                &&& bytes + rest == buf + (chunk + rest)
                &&& bytes.len() <= max
                &&& forall|i: int| 0 <= i < bytes.len() ==> bytes[i] != 10
            },
            Taken::TooLong(_) => read_line(buf + (chunk + rest), max) == Reading::TooLong,
            Taken::End => false,
        },
{
    let p = break_at(chunk) as int;
    let whole = buf + (chunk + rest);
    lemma_break_at_facts(chunk);
    lemma_break_at_facts(whole);
    if p < chunk.len() {
        assert forall|i: int| 0 <= i < buf.len() + p implies whole[i] != 10 by {
            if i >= buf.len() {
                assert(whole[i] == chunk[i - buf.len()]);
            } else {
                assert(whole[i] == buf[i]);
            }
        }
        assert(whole[buf.len() + p] == chunk[p]);
        lemma_break_at(whole, buf.len() + p);
        assert(whole.take(buf.len() + p) =~= buf + chunk.take(p));
        assert(whole.skip(buf.len() + p + 1) =~= chunk.skip(p + 1) + rest);
    } else {
        assert(buf + chunk + rest =~= whole);
        if break_at(whole) <= max {
            if break_at(whole) < buf.len() + chunk.len() {
                let q = break_at(whole) as int;
                assert(whole[q] == 10);
                if q < buf.len() {
                    assert(whole[q] == buf[q]);
                } else {
                    assert(whole[q] == chunk[q - buf.len()]);
                }
            }
        }
        assert forall|i: int| 0 <= i < (buf + chunk).len() implies (buf + chunk)[i] != 10 by {
            if i >= buf.len() {
                assert((buf + chunk)[i] == chunk[i - buf.len()]);
            }
        }
    }
}

/// How the input is cut into chunks makes no difference: the same line comes out, with
/// the same input left behind it, or the same refusal.
pub proof fn law_chunking_makes_no_difference(buf: Seq<u8>, chunks: Seq<Seq<u8>>, max: nat)
    requires
        buf.len() <= max,
        forall|i: int| 0 <= i < buf.len() ==> buf[i] != 10,
        forall|k: int| 0 <= k < chunks.len() ==> (#[trigger] chunks[k]).len() > 0,
    ensures
        read_chunks(buf, chunks, max) == read_line(buf + chunks.flatten(), max),
    decreases chunks.len(),
{
    if chunks.len() == 0 {
        assert(chunks.flatten() =~= Seq::<u8>::empty());
        assert(buf + chunks.flatten() =~= buf);
        lemma_break_at(buf, buf.len() as int);
    } else {
        let rest = chunks.skip(1).flatten();
        assert(chunks.drop_first() =~= chunks.skip(1));
        assert(chunks.flatten() == chunks[0] + rest);
        lemma_taken(buf, chunks[0], rest, max);
        match taken(buf, chunks[0], max) {
            Taken::More(bytes) => {
                law_chunking_makes_no_difference(bytes, chunks.skip(1), max);
            },
            _ => {},
        }
    }
}

/// A message as it is written: its text and a line break.
pub open spec fn framed(line: Seq<char>) -> Seq<u8> {
    vstd::utf8::encode_utf8(line).push(10)
}

/// The bytes of a message.
pub fn frame(line: &str) -> (bytes: Vec<u8>)
    ensures
        bytes@ == framed(line@),
{
    let text: &[u8] = line.as_bytes();
    let mut bytes: Vec<u8> = Vec::new();
    let mut i: usize = 0;
    while i < text.len()
        invariant
            i <= text@.len(),
            text@ == vstd::utf8::encode_utf8(line@),
            bytes@ == text@.take(i as int),
        decreases text@.len() - i,
    {
        bytes.push(text[i]);
        assert(text@.take(i + 1) =~= text@.take(i as int).push(text@[i as int]));
        i = i + 1;
    }
    assert(text@.take(i as int) =~= text@);
    bytes.push(10);
    bytes
}

proof fn lemma_no_break_byte(text: Seq<char>)
    requires
        forall|i: int| 0 <= i < text.len() ==> text[i] != '\n',
    ensures
        forall|i: int|
            0 <= i < vstd::utf8::encode_utf8(text).len() ==> vstd::utf8::encode_utf8(text)[i] != 10,
    decreases text.len(),
{
    if text.len() > 0 {
        lemma_no_break_byte(text.drop_first());
        let v = text[0] as u32;
        let head = vstd::utf8::encode_scalar(v);
        vstd::utf8::char_is_scalar(text[0]);
        vstd::utf8::char_u32_cast(text[0], v);
        assert(v != 10);
        assert(v <= 0x7F ==> v != 10 ==> vstd::utf8::leading_byte_width_1(v) != 10u8) by (bit_vector);
        assert(vstd::utf8::leading_byte_width_2(v) != 10u8) by (bit_vector);
        assert(vstd::utf8::leading_byte_width_3(v) != 10u8) by (bit_vector);
        assert(vstd::utf8::leading_byte_width_4(v) != 10u8) by (bit_vector);
        assert(vstd::utf8::last_continuation_byte(v) != 10u8) by (bit_vector);
        assert(vstd::utf8::second_last_continuation_byte(v) != 10u8) by (bit_vector);
        assert(vstd::utf8::third_last_continuation_byte(v) != 10u8) by (bit_vector);
        assert forall|i: int| 0 <= i < head.len() implies head[i] != 10 by {}
        let rest = vstd::utf8::encode_utf8(text.drop_first());
        assert forall|i: int| 0 <= i < (head + rest).len() implies (head + rest)[i] != 10 by {
            if i >= head.len() {
                assert((head + rest)[i] == rest[i - head.len()]);
            }
        }
    }
}

/// A message that is written is read back as it was, and what follows it is left for the
/// next one: any text of one line, up to the cap.
pub proof fn law_messages_read_back(line: Seq<char>, rest: Seq<u8>, max: nat)
    requires
        forall|i: int| 0 <= i < line.len() ==> line[i] != '\n',
        text::byte_len(line) <= max,
    ensures
        read_line(framed(line) + rest, max) == Reading::Line(vstd::utf8::encode_utf8(line), rest),
        vstd::utf8::valid_utf8(vstd::utf8::encode_utf8(line)),
        vstd::utf8::decode_utf8(vstd::utf8::encode_utf8(line)) == line,
{
    let bytes = vstd::utf8::encode_utf8(line);
    let input = framed(line) + rest;
    lemma_no_break_byte(line);
    assert forall|i: int| 0 <= i < bytes.len() implies input[i] != 10 by {
        assert(input[i] == bytes[i]);
    }
    assert(input[bytes.len() as int] == 10);
    lemma_break_at(input, bytes.len() as int);
    assert(input.take(bytes.len() as int) =~= bytes);
    assert(input.skip(bytes.len() as int + 1) =~= rest);
    vstd::utf8::encode_utf8_valid_utf8(line);
    vstd::utf8::encode_utf8_decode_utf8(line);
}

/// Numbers stand for limits field by field, times as whole milliseconds, and are read back
/// field by field.
pub proof fn law_wire_limits_are_the_limits(wire: WireLimits, limits: Limits)
    ensures
        stands_for(wire, limits) ==> {
            &&& wire.max_loop_iterations == limits.max_loop_iterations
            &&& wire.max_recursion_depth == limits.max_recursion_depth
            &&& wire.max_stack_size == limits.max_stack_size
            &&& wire.max_backtrace_frames == limits.max_backtrace_frames
            &&& wire.max_tool_calls == limits.max_tool_calls
            &&& wire.max_output_bytes == limits.max_output_bytes
            &&& time::nanos(limits.timeout) / 1_000_000 <= u64::MAX ==> wire.timeout_ms
                * 1_000_000 <= time::nanos(limits.timeout) < (wire.timeout_ms + 1) * 1_000_000
            &&& time::nanos(limits.per_call_timeout) / 1_000_000 <= u64::MAX
                ==> wire.per_call_timeout_ms * 1_000_000 <= time::nanos(limits.per_call_timeout)
                < (wire.per_call_timeout_ms + 1) * 1_000_000
        },
        read_from(limits, wire) ==> {
            &&& limits.max_loop_iterations == wire.max_loop_iterations
            &&& limits.max_recursion_depth == wire.max_recursion_depth
            &&& limits.max_stack_size == wire.max_stack_size
            &&& limits.max_backtrace_frames == wire.max_backtrace_frames
            &&& limits.max_tool_calls == wire.max_tool_calls
            &&& limits.max_output_bytes == wire.max_output_bytes
            &&& time::nanos(limits.timeout) == wire.timeout_ms * 1_000_000
            &&& time::nanos(limits.per_call_timeout) == wire.per_call_timeout_ms * 1_000_000
        },
{
    time::law_low_bits_wrap_around(time::nanos(limits.timeout) / 1_000_000);
    time::law_low_bits_wrap_around(time::nanos(limits.per_call_timeout) / 1_000_000);
}

/// However the parent's side ends, it is told: a worker that reported, by its own outcome;
/// one that outlived its deadline, as a timeout; and anything else with its whole reason.
pub proof fn law_every_end_is_told(outcome: Outcome, reason: String)
    ensures
        end_fault(ParentEnd::Reported(outcome)) is None,
        end_fault(ParentEnd::TimedOut) == Some(Fault::Timeout),
        end_fault(ParentEnd::NotSpawned(reason)) == Some(
            Fault::Exception("could not spawn worker: "@ + reason@),
        ),
        end_fault(ParentEnd::NotPiped) == Some(Fault::Exception("worker stdio was not piped"@)),
        end_fault(ParentEnd::NotEncoded(reason)) == Some(
            Fault::Exception("could not encode job: "@ + reason@),
        ),
        end_fault(ParentEnd::NotSent(reason)) == Some(
            Fault::Exception("could not send job to worker: "@ + reason@),
        ),
        end_fault(ParentEnd::Broken(reason)) == Some(Fault::Exception(reason@)),
{
}

/// Every call of a worker is handed to the bridge as it was made, under its id, and every
/// answer of the bridge is sent back under the id of its call; the conversation goes on
/// until the worker reports, whose outcome is passed on as it is, or breaks off, which is
/// told with its reason.
pub proof fn law_conversation_is_passed_on(
    step: PumpStep,
    id: u64,
    server: String,
    tool: String,
    args: Value,
    error: BridgeError,
    outcome: Outcome,
    reason: String,
)
    ensures
        pumps(
            PumpEvent::Received((FromWorker::Call { id, server, tool, args })),
            step,
        ) ==> step == (PumpStep::Serve { id, server, tool, args }),
        pumps(PumpEvent::Received((FromWorker::Done { outcome })), step) ==> step == PumpStep::End(
            ParentEnd::Reported(outcome),
        ),
        pumps((PumpEvent::Answered { id, result: Ok(args) }), step) ==> step == PumpStep::Reply(
            (ToWorker::Answer { id, value: args }),
        ),
        pumps((PumpEvent::Answered { id, result: Err(error) }), step) ==> (step matches PumpStep::Reply(
            ToWorker::Failure { id: to, message },
        ) && to == id && message@ == runtime::refusal_text(error@)),
        pumps(PumpEvent::Closed, step) ==> (step matches PumpStep::End(ParentEnd::Broken(message))
            && message@
            == "worker exited before producing a result (killed by a resource limit?)"@),
        pumps(PumpEvent::Unreadable(reason), step) ==> (step matches PumpStep::End(
            ParentEnd::Broken(message),
        ) && message@ == "reading from worker: "@ + reason@),
        pumps(PumpEvent::Malformed(reason), step) ==> (step matches PumpStep::End(
            ParentEnd::Broken(message),
        ) && message@ == reason@),
        pumps(PumpEvent::Unwritable(reason), step) ==> (step matches PumpStep::End(
            ParentEnd::Broken(message),
        ) && message@ == "writing to worker: "@ + reason@),
{
}

/// An answer says to its call exactly what it carries.
pub proof fn law_answers_say_what_they_carry(id: u64, value: Value, message: String)
    ensures
        reply_id((ToWorker::Answer { id, value })) == id,
        reply_id((ToWorker::Failure { id, message })) == id,
        reply_says((ToWorker::Answer { id, value })) == Ok::<Json, Refusal>(json::json_view(value)),
        reply_says((ToWorker::Failure { id, message })) == Err::<Json, Refusal>(
            Refusal::Call(message@),
        ),
{
}

proof fn lemma_filter_all(open: Seq<u64>, pred: spec_fn(u64) -> bool)
    requires
        forall|i: int| 0 <= i < open.len() ==> pred(#[trigger] open[i]),
    ensures
        open.filter(pred) == open,
    decreases open.len(),
{
    reveal(Seq::filter);
    if open.len() > 0 {
        let rest = open.drop_last();
        assert forall|i: int| 0 <= i < rest.len() implies pred(#[trigger] rest[i]) by {
            assert(pred(open[i]));
        }
        lemma_filter_all(rest, pred);
        assert(pred(open[open.len() - 1]));
        assert(open =~= rest.push(open.last()));
    }
}

proof fn lemma_filter_none(open: Seq<u64>, pred: spec_fn(u64) -> bool)
    requires
        forall|i: int| 0 <= i < open.len() ==> !pred(#[trigger] open[i]),
    ensures
        open.filter(pred) == Seq::<u64>::empty(),
    decreases open.len(),
{
    reveal(Seq::filter);
    if open.len() > 0 {
        let rest = open.drop_last();
        assert forall|i: int| 0 <= i < rest.len() implies !pred(#[trigger] rest[i]) by {
            assert(!pred(open[i]));
        }
        lemma_filter_none(rest, pred);
        assert(!pred(open[open.len() - 1]));
    }
}

proof fn lemma_without(open: Seq<u64>, id: u64, others: spec_fn(u64) -> bool)
    requires
        forall|x: u64| #[trigger] others(x) <==> x != id,
    ensures
        without(open, id) == open.filter(others),
    decreases open.len(),
{
    reveal(Seq::filter);
    if open.len() > 0 {
        lemma_without(open.drop_last(), id, others);
        assert(others(open.last()) <==> open.last() != id);
    }
}

/// Among waiting calls of distinct ids, the end of one takes just that one out and leaves
/// the others in their order; the end of one that does not wait changes nothing; and where
/// it is not known which one ended, none waits any more.
pub proof fn law_calls_end_one_at_a_time(open: Seq<u64>, i: int, id: u64)
    requires
        forall|a: int, b: int|
            0 <= a < b < open.len() ==> (#[trigger] open[a]) != (#[trigger] open[b]),
    ensures
        0 <= i < open.len() && open[i] == id ==> {
            &&& without(open, id) == open.remove(i)
            &&& still_open(open, Some(id)) == open.remove(i)
            &&& given_up(open, Some(id)) == seq![id]
        },
        !open.contains(id) ==> {
            &&& without(open, id) == open
            &&& still_open(open, Some(id)) == open
            &&& given_up(open, Some(id)) == Seq::<u64>::empty()
        },
        still_open(open, None) == Seq::<u64>::empty(),
        given_up(open, None) == open,
{
    let others = |other: u64| other != id;
    let same = |other: u64| other == id;
    lemma_without(open, id, others);
    if 0 <= i < open.len() && open[i] == id {
        let front = open.take(i);
        let back = open.skip(i + 1);
        assert(open =~= front + seq![id] + back);
        assert forall|k: int| 0 <= k < front.len() implies #[trigger] front[k] != id by {
            assert(open[k] != open[i]);
        }
        assert forall|k: int| 0 <= k < back.len() implies #[trigger] back[k] != id by {
            assert(open[i] != open[i + 1 + k]);
        }
        Seq::filter_distributes_over_add(front + seq![id], back, others);
        Seq::filter_distributes_over_add(front, seq![id], others);
        Seq::filter_distributes_over_add(front + seq![id], back, same);
        Seq::filter_distributes_over_add(front, seq![id], same);
        lemma_filter_all(front, others);
        lemma_filter_all(back, others);
        lemma_filter_none(seq![id], others);
        lemma_filter_none(front, same);
        lemma_filter_none(back, same);
        lemma_filter_all(seq![id], same);
        assert(open.filter(others) =~= front + back);
        assert(front + back =~= open.remove(i));
        assert(without(open, id) =~= open.remove(i));
        assert(given_up(open, Some(id)) =~= seq![id]);
    }
    if !open.contains(id) {
        assert forall|k: int| 0 <= k < open.len() implies #[trigger] open[k] != id by {
            if open[k] == id {
                assert(open.contains(id));
            }
        }
        lemma_filter_all(open, others);
        lemma_filter_none(open, same);
    }
}

/// A line is what stands before the first line break, if that is no more than the cap; what
/// follows the break is left. More bytes than the cap without a break are too long, and
/// fewer are no line yet.
pub proof fn law_lines_end_at_the_first_break(input: Seq<u8>, max: nat)
    ensures
        match read_line(input, max) {
            Reading::Line(line, rest) => {
                &&& input == line + seq![10u8] + rest
                &&& line.len() <= max
                &&& forall|i: int| 0 <= i < line.len() ==> line[i] != 10
            },
            Reading::TooLong => input.len() > max && forall|i: int|
                0 <= i <= max ==> #[trigger] input[i] != 10,
            Reading::End => input.len() <= max && forall|i: int|
                0 <= i < input.len() ==> #[trigger] input[i] != 10,
        },
{
    lemma_break_at_facts(input);
    let p = break_at(input) as int;
    if p <= max && p < input.len() {
        let line = input.take(p);
        assert(input =~= line + seq![10u8] + input.skip(p + 1));
    }
}

/// A chunk adds all its bytes to the line that is held, up to its first line break. Of a
/// chunk that completes a line all is used up to and with the break.
pub proof fn law_chunks_continue_the_line(buf: Seq<u8>, chunk: Seq<u8>, max: nat)
    requires
        forall|i: int| 0 <= i < buf.len() ==> buf[i] != 10,
    ensures
        chunk.len() == 0 <==> taken(buf, chunk, max) is End,
        match taken(buf, chunk, max) {
            Taken::Line(line, used) => {
                &&& 0 < used <= chunk.len()
                &&& line + seq![10u8] == buf + chunk.take(used as int)
                &&& line.len() <= max
                &&& forall|i: int| 0 <= i < line.len() ==> line[i] != 10
            },
            Taken::More(line) => {
                &&& line == buf + chunk
                &&& line.len() <= max
                &&& forall|i: int| 0 <= i < line.len() ==> line[i] != 10
            },
            Taken::TooLong(used) => {
                &&& buf.len() + chunk.len() > max
                &&& forall|i: int|
                    0 <= i < chunk.len() && buf.len() + i <= max ==> #[trigger] chunk[i] != 10
                &&& used == if chunk.contains(10) {
                    0
                } else {
                    chunk.len()
                }
            },
            Taken::End => true,
        },
{
    lemma_break_at_facts(chunk);
    let p = break_at(chunk) as int;
    if chunk.len() > 0 {
        match taken(buf, chunk, max) {
            Taken::Line(line, used) => {
                assert(line + seq![10u8] =~= buf + chunk.take(used as int));
                assert forall|i: int| 0 <= i < line.len() implies line[i] != 10 by {
                    if i >= buf.len() {
                        assert(line[i] == chunk[i - buf.len()]);
                    }
                }
            },
            Taken::More(line) => {
                assert forall|i: int| 0 <= i < line.len() implies line[i] != 10 by {
                    if i >= buf.len() {
                        assert(line[i] == chunk[i - buf.len()]);
                    }
                }
            },
            Taken::TooLong(_) => {
                if p < chunk.len() {
                    assert(chunk[p] == 10);
                }
            },
            Taken::End => {},
        }
    }
}

/// A message is written as the bytes of its text and a line break, and nothing else.
pub proof fn law_messages_are_their_bytes_and_a_break(line: Seq<char>)
    ensures
        framed(line).len() == text::byte_len(line) + 1,
        framed(line).last() == 10,
        framed(line).drop_last() == vstd::utf8::encode_utf8(line),
{
    assert(framed(line).drop_last() =~= vstd::utf8::encode_utf8(line));
}

/// What the bridge answered is said as it is.
pub proof fn law_bridge_answers_are_said_as_they_are(value: Value, error: BridgeError)
    ensures
        answer_view(Ok(value)) == Ok::<Json, Refusal>(json::json_view(value)),
        answer_view(Err(error)) == Err::<Json, Refusal>(error@),
{
}

/// The calls that wait have ids that were given out, each its own, and none waits once the
/// parent is gone.
pub proof fn law_waiting_calls_have_their_own_ids(calls: PendingState, i: int, j: int)
    requires
        well_kept(calls),
    ensures
        0 <= i < calls.open.len() ==> calls.open[i] < calls.next,
        0 <= i < j < calls.open.len() ==> calls.open[i] != calls.open[j],
        calls.closed ==> calls.open.len() == 0,
{
}

} // verus!
