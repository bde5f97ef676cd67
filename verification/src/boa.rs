//! The decisions of one execution of model-written JavaScript. The engine itself is
//! driven from outside: a [`Run`] says what to have it do next and is told what
//! came of it, until it has the result.

use serde_json::Value;
use vstd::prelude::*;

use crate::convert::{self, Bounds, Next, Node, Shape, Walk, WalkState};
use crate::json::{self, Json};
use crate::text;
use crate::types::{Capabilities, ExecError, Fault, Outcome, MAX_JSON_DEPTH};

verus! {

/// The Boa engine. Cheap to construct; a fresh context is built per execution.
#[derive(Debug, Default, Clone, Copy)]
pub struct Boa;

/// How the model should write code for this engine.
pub const GUIDANCE: &'static str = "\
Write one JavaScript ES module and return its answer with `export default <value>` \
at the top level. This is required: a `return`, `console.log`, or `module.exports` \
does not return anything, and `console.log` only adds debug lines to `logs`. \
Top-level await is allowed.

Reach tools only by importing per-server modules, exactly \
`import * as fs from './servers/filesystem'` (the `./servers/` prefix is required), \
then calling the exported functions. Use the exact tool names from `find`; each \
takes a single object argument (e.g. `await fs.readFile({ path })`) and returns a \
Promise. You have no network, no filesystem, and no `fetch` of your own; the \
imported server modules are the only way out.

Modern JavaScript works (optional chaining, spread, destructuring, template \
literals, Array/Object/Map/Set/JSON, Promise.all). `Intl` and `structuredClone` \
are not available; format numbers with `toFixed`. Do the whole task in this one \
program, and `export default` only the answer the user needs: filter, select, and \
aggregate inside the code rather than returning raw tool output, so only the \
final result returns.";

impl Boa {
    /// The engine.
    pub fn new() -> (boa: Self)
        ensures
            boa == Boa,
    {
        Boa
    }

    /// What the engine can do: asynchronous JavaScript, without a cap on memory.
    pub fn capabilities(&self) -> (caps: Capabilities)
        ensures
            caps.language@ == "javascript"@,
            caps.supports_async,
            !caps.hard_memory_cap,
            caps.usage_guidance@ == GUIDANCE@,
    {
        Capabilities::new("javascript", GUIDANCE)
    }
}

/// Whether a panic message is the engine's own way of reporting that a runtime limit
/// tripped. The run that it ended answers it with a clean error, so it is not worth
/// printing.
pub fn is_expected_limit_panic(message: &str) -> (expected: bool)
    ensures
        expected == text::occurs(message@, "RuntimeLimit native error"@),
{
    text::contains(message, "RuntimeLimit native error")
}

/// Maximum source handed to the parser, in bytes. The parser is recursive descent
/// with no depth limit: it takes up to [`PARSER_FRAME_BYTES`] of stack per source
/// byte, and an overflow would abort the process. So the source is capped in
/// proportion to the stack that the parser runs on.
pub const MAX_SOURCE_BYTES: usize = 8 * 1024;

/// The stack that one source byte can cost the parser, at most.
pub const PARSER_FRAME_BYTES: usize = 20 * 1024;

/// The stack of the thread that executions are run on.
pub const ISLAND_STACK_BYTES: usize = 256 * 1024 * 1024;

/// No source that is accepted can drive the parser past its stack.
pub proof fn law_accepted_source_fits_the_stack(source: Seq<char>)
    requires
        size_fault(source) is None,
    ensures
        text::byte_len(source) * PARSER_FRAME_BYTES <= ISLAND_STACK_BYTES,
{
    let n = text::byte_len(source);
    assert(n * 20480 <= 268435456) by (nonlinear_arith)
        requires
            n <= 8192,
    ;
}

/// The fault of a source that is too large to be parsed.
pub open spec fn size_fault(source: Seq<char>) -> Option<Fault> {
    if text::byte_len(source) > MAX_SOURCE_BYTES {
        Some(
            Fault::Limit(
                "source is larger than "@ + text::decimal(MAX_SOURCE_BYTES as nat) + " bytes"@,
            ),
        )
    } else {
        None
    }
}

/// Refuses a source larger than [`MAX_SOURCE_BYTES`] before it is parsed.
pub fn check_source_size(source: &str) -> (checked: Result<(), ExecError>)
    ensures
        match size_fault(source@) {
            Some(fault) => checked is Err && checked->Err_0@ == fault,
            None => checked is Ok,
        },
{
    if text::len_of(source) > MAX_SOURCE_BYTES {
        let mut what: String = String::new();
        what.push_str("source is larger than ");
        text::push_decimal(&mut what, MAX_SOURCE_BYTES as u64);
        what.push_str(" bytes");
        assert(what@ =~= "source is larger than "@ + text::decimal(MAX_SOURCE_BYTES as nat)
            + " bytes"@);
        Err(ExecError::Limit { what })
    } else {
        Ok(())
    }
}

/// A message of at most `max` bytes as it is; a longer one is cut between two
/// characters, with a note that it was.
pub open spec fn capped(message: Seq<char>, max: nat) -> Seq<char> {
    if text::byte_len(message) <= max {
        message
    } else {
        message.take(text::fitting(message, max) as int) + " [error truncated]"@
    }
}

/// Caps a model-facing error message to `max` bytes and a short note. Results and
/// logs are byte-capped; without this a thrown error with a huge message would
/// flood the model just the same.
pub fn cap_message(message: String, max: usize) -> (out: String)
    ensures
        out@ == capped(message@, max as nat),
{
    if text::len_of(message.as_str()) <= max {
        return message;
    }
    let mut out: String = text::cut(message.as_str(), max);
    out.push_str(" [error truncated]");
    out
}

/// An error message never takes more than the output cap and the note, and what is
/// shown of it is its beginning.
pub proof fn law_error_text_is_bounded(message: Seq<char>, max: nat)
    ensures
        text::byte_len(capped(message, max)) <= max + text::byte_len(" [error truncated]"@),
        text::byte_len(message) <= max ==> capped(message, max) == message,
        text::byte_len(message) > max ==> exists|k: int|
            0 <= k <= message.len() && capped(message, max) == #[trigger] message.take(k)
                + " [error truncated]"@,
{
    let k = text::fitting(message, max) as int;
    text::lemma_fitting_fits(message, max);
    text::lemma_byte_len_concat(message.take(k), " [error truncated]"@);
    if text::byte_len(message) > max {
        assert(capped(message, max) == message.take(k) + " [error truncated]"@);
    }
}

/// The error for something that the engine raised outside of the module's own code.
pub fn js(error: String, max: usize) -> (raised: ExecError)
    ensures
        raised@ == Fault::Exception(capped(error@, max as nat)),
{
    ExecError::Exception { message: cap_message(error, max) }
}

/// A lowercase message reports that a structural limit tripped.
pub open spec fn reports_limit(lower: Seq<char>) -> bool {
    ||| text::occurs(lower, "loop iteration limit"@)
    ||| text::occurs(lower, "exceeded maximum number of recursive calls"@)
    ||| text::occurs(lower, "exceeded maximum call stack length"@)
}

/// The error that a message stands for, where `lower` is the message in lowercase.
pub open spec fn told(message: Seq<char>, lower: Seq<char>) -> Fault {
    if reports_limit(lower) {
        Fault::Limit(message)
    } else {
        Fault::Exception(message)
    }
}

/// The error that a thrown message stands for.
pub open spec fn classified(message: Seq<char>, max: nat) -> Fault {
    told(capped(message, max), text::lowercase(capped(message, max)))
}

/// Tells a structural limit from an exception, by the message and the message in
/// lowercase.
pub fn tell(message: String, lower: &str) -> (error: ExecError)
    ensures
        error@ == told(message@, lower@),
{
    let is_limit: bool = text::contains(lower, "loop iteration limit") || text::contains(
        lower,
        "exceeded maximum number of recursive calls",
    ) || text::contains(lower, "exceeded maximum call stack length");
    if is_limit {
        ExecError::Limit { what: message }
    } else {
        ExecError::Exception { message }
    }
}

/// Maps a thrown message to an execution error, recognising the structural limits
/// by the engine's messages: "Maximum loop iteration limit N exceeded", "exceeded
/// maximum number of recursive calls", "exceeded maximum call stack length". `max`
/// bounds the stored message.
pub fn classify(message: String, max: usize) -> (error: ExecError)
    ensures
        error@ == classified(message@, max as nat),
{
    let message: String = cap_message(message, max);
    let lower: String = text::to_lowercase(message.as_str());
    tell(message, lower.as_str())
}

/// Why a module's promise was rejected, as far as it can be read without running the
/// module's code.
#[derive(Debug)]
pub enum Rejection {
    /// A primitive, by its text; nothing where it has none.
    Primitive(Option<String>),
    /// An object, by the texts stored under `name` and `message`. An accessor, or a
    /// value that is no text, counts as nothing stored.
    Object { name: Option<String>, message: Option<String> },
}

/// The text of a rejection.
pub open spec fn rejection_text(reason: Rejection) -> Seq<char> {
    match reason {
        Rejection::Primitive(Some(text)) => text@,
        Rejection::Primitive(None) => "uncaught exception"@,
        Rejection::Object { name: Some(name), message: Some(message) } => name@ + ": "@ + message@,
        Rejection::Object { name: None, message: Some(message) } => message@,
        Rejection::Object { name: Some(name), message: None } => name@,
        Rejection::Object { name: None, message: None } => "uncaught exception (non-error throw)"@,
    }
}

/// Renders a promise rejection reason.
pub fn render_rejection(reason: Rejection) -> (rendered: String)
    ensures
        rendered@ == rejection_text(reason),
{
    match reason {
        Rejection::Primitive(Some(text)) => text,
        Rejection::Primitive(None) => "uncaught exception".to_owned(),
        Rejection::Object { name: Some(name), message: Some(message) } => {
            let mut out: String = name;
            out.push_str(": ");
            out.push_str(message.as_str());
            out
        },
        Rejection::Object { name: None, message: Some(message) } => message,
        Rejection::Object { name: Some(name), message: None } => name,
        Rejection::Object { name: None, message: None } =>
            "uncaught exception (non-error throw)".to_owned(),
    }
}

/// Max nesting depth of an exported value, before the conversion to JSON (which
/// recurses one native frame per level) can overflow the stack. Shared with the
/// inbound tool-result guard.
pub const MAX_RESULT_DEPTH: usize = MAX_JSON_DEPTH;

/// Bounds the serialized result without buffering it whole.
pub fn check_output_size(value: &Value, max_bytes: usize) -> (checked: Result<(), ExecError>)
    ensures
        if text::byte_len(json::json_text(json::json_view(*value))) <= max_bytes {
            checked is Ok
        } else {
            checked is Err && checked->Err_0@ == Fault::OutputTooLarge
        },
{
    if json::serialized_within(value, max_bytes) {
        Ok(())
    } else {
        Err(ExecError::OutputTooLarge)
    }
}

/// How far an execution is.
#[derive(Debug, Clone, Copy, PartialEq, Eq, Structural)]
pub enum Stage {
    Building,
    Installing,
    Parsing,
    Evaluating,
    Exporting,
    Vetting,
    Converting,
    Finished,
}

/// What came of a module's evaluation.
#[derive(Debug)]
pub enum Settled {
    /// The wall-clock deadline passed first.
    TimedOut,
    /// The engine panicked, which it does where a runtime limit trips while a module
    /// is evaluated.
    Aborted,
    /// The event loop failed, with this message.
    Failed(String),
    Fulfilled,
    Rejected(Rejection),
    Pending,
}

/// A module's default export.
#[derive(Debug)]
pub enum Export {
    /// There is none.
    Missing,
    /// It is not an object.
    Primitive,
    /// It is an object of this shape.
    Object(Shape),
}

/// What came of a step.
#[derive(Debug)]
pub enum Event {
    /// The step worked.
    Ready,
    /// The engine raised an error with this text.
    Raised(String),
    /// The module was evaluated.
    Settled(Settled),
    /// The default export was read.
    Exported(Export),
    /// The property that was asked for stores this object, or none.
    Property(Option<Shape>),
    /// The export was converted to JSON; nothing where it has no JSON form.
    Converted(Option<Value>),
}

/// What to do next.
#[derive(Debug)]
pub enum Step {
    /// Build a context with the modules of the servers and the runtime limits.
    Build,
    /// Install the globals: the bridge and the console.
    Install,
    /// Parse the source as a module.
    Parse,
    /// Evaluate the module within its time.
    Evaluate,
    /// Read the default export.
    ReadExport,
    /// Look at a property: see [`Next::Inspect`].
    Inspect { frame: usize, key: usize },
    /// Convert the default export to JSON.
    Convert,
    /// The execution is over, with this result.
    Finish(Result<Value, ExecError>),
}

/// A step, by what it says.
pub enum StepView {
    Build,
    Install,
    Parse,
    Evaluate,
    ReadExport,
    Inspect { frame: usize, key: usize },
    Convert,
    Finish(Result<Json, Fault>),
}

impl View for Step {
    type V = StepView;

    open spec fn view(&self) -> StepView {
        match *self {
            Step::Build => StepView::Build,
            Step::Install => StepView::Install,
            Step::Parse => StepView::Parse,
            Step::Evaluate => StepView::Evaluate,
            Step::ReadExport => StepView::ReadExport,
            Step::Inspect { frame, key } => StepView::Inspect { frame, key },
            Step::Convert => StepView::Convert,
            Step::Finish(Ok(value)) => StepView::Finish(Ok(json::json_view(value))),
            Step::Finish(Err(error)) => StepView::Finish(Err(error@)),
        }
    }
}

/// One execution.
#[derive(Debug)]
pub struct Run {
    stage: Stage,
    walk: Walk,
    max_output_bytes: usize,
}

/// The state of a [`Run`].
#[verifier::ext_equal]
pub struct RunState {
    pub stage: Stage,
    pub walk: WalkState,
    pub max_output_bytes: nat,
}

impl View for Run {
    type V = RunState;

    closed spec fn view(&self) -> RunState {
        RunState {
            stage: self.stage,
            walk: self.walk@,
            max_output_bytes: self.max_output_bytes as nat,
        }
    }
}

/// The events that a stage can bring.
pub open spec fn expected(stage: Stage, event: Event) -> bool {
    match stage {
        Stage::Building | Stage::Installing | Stage::Parsing => event is Ready || event is Raised,
        Stage::Evaluating => event is Settled,
        Stage::Exporting => event is Exported || event is Raised,
        Stage::Vetting => event is Property,
        Stage::Converting => event is Converted || event is Raised,
        Stage::Finished => false,
    }
}

/// The execution went on to another stage.
pub open spec fn moved(run: RunState, stage: Stage, step: StepView) -> (RunState, StepView) {
    (RunState { stage, ..run }, step)
}

/// The execution is over.
pub open spec fn finished(run: RunState, result: Result<Json, Fault>) -> (RunState, StepView) {
    moved(run, Stage::Finished, StepView::Finish(result))
}

/// The execution ended with an error of the engine.
pub open spec fn raised(run: RunState, error: Seq<char>) -> (RunState, StepView) {
    finished(run, Err(Fault::Exception(capped(error, run.max_output_bytes))))
}

/// The error where a runtime limit made the engine give up.
pub open spec fn aborted_fault() -> Fault {
    Fault::Limit("execution aborted: a runtime limit (loop, recursion or stack) was exceeded"@)
}

/// The error where nothing was exported. It names the fix, because this is the most
/// common mistake.
pub open spec fn missing_export_fault() -> Fault {
    Fault::Exception(
        "no value was exported: assign your answer with `export default <value>` at the top level (not `return`, `console.log`, or `module.exports`)"@,
    )
}

/// The execution after its module was evaluated.
pub open spec fn after_evaluation(run: RunState, settled: Settled) -> (RunState, StepView) {
    match settled {
        Settled::TimedOut => finished(run, Err(Fault::Timeout)),
        Settled::Aborted => finished(run, Err(aborted_fault())),
        Settled::Failed(message) => finished(
            run,
            Err(classified(message@, run.max_output_bytes)),
        ),
        Settled::Fulfilled => moved(run, Stage::Exporting, StepView::ReadExport),
        Settled::Rejected(reason) => finished(
            run,
            Err(classified(rejection_text(reason), run.max_output_bytes)),
        ),
        Settled::Pending => finished(
            run,
            Err(Fault::Exception("module did not finish executing"@)),
        ),
    }
}

/// The execution after its walk over the export was told of an object, or of none.
pub open spec fn vetted(run: RunState, entered: Option<Shape>) -> (RunState, StepView) {
    let inside = match entered {
        Some(shape) => convert::walk_enter(run.walk, shape),
        None => Ok(run.walk),
    };
    match inside {
        Err(fault) => finished(run, Err(fault)),
        Ok(walk) => match convert::walk_advance(walk) {
            Err(fault) => finished(run, Err(fault)),
            Ok((walk, Next::Done)) => moved(
                RunState { walk, ..run },
                Stage::Converting,
                StepView::Convert,
            ),
            Ok((walk, Next::Inspect { frame, key })) => moved(
                RunState { walk, ..run },
                Stage::Vetting,
                StepView::Inspect { frame, key },
            ),
        },
    }
}

/// The execution after its export was converted. An export without a JSON form
/// counts as null.
pub open spec fn after_conversion(run: RunState, value: Option<Value>) -> (RunState, StepView) {
    let json = match value {
        Some(value) => json::json_view(value),
        None => Json::Null,
    };
    if text::byte_len(json::json_text(json)) <= run.max_output_bytes {
        finished(run, Ok(json))
    } else {
        finished(run, Err(Fault::OutputTooLarge))
    }
}

/// What an event makes of an execution.
pub open spec fn transition(run: RunState, event: Event) -> (RunState, StepView) {
    match (run.stage, event) {
        (_, Event::Raised(error)) => raised(run, error@),
        (Stage::Building, _) => moved(run, Stage::Installing, StepView::Install),
        (Stage::Installing, _) => moved(run, Stage::Parsing, StepView::Parse),
        (Stage::Parsing, _) => moved(run, Stage::Evaluating, StepView::Evaluate),
        (_, Event::Settled(settled)) => after_evaluation(run, settled),
        (_, Event::Exported(Export::Missing)) => finished(run, Err(missing_export_fault())),
        (_, Event::Exported(Export::Primitive)) => moved(
            run,
            Stage::Converting,
            StepView::Convert,
        ),
        (_, Event::Exported(Export::Object(shape))) => vetted(run, Some(shape)),
        (_, Event::Property(entered)) => vetted(run, entered),
        (_, Event::Converted(value)) => after_conversion(run, value),
        (_, Event::Ready) => (run, StepView::Build),
    }
}

/// Where an execution starts: a source that is too large is not even parsed.
pub open spec fn started(source: Seq<char>, max_output_bytes: nat) -> (RunState, StepView) {
    let run = RunState {
        stage: Stage::Building,
        walk: convert::walk_start(MAX_RESULT_DEPTH as nat, max_output_bytes),
        max_output_bytes,
    };
    match size_fault(source) {
        Some(fault) => finished(run, Err(fault)),
        None => moved(run, Stage::Building, StepView::Build),
    }
}

impl Run {
    /// Starts an execution of `source` whose output is capped at `max_output_bytes`.
    pub fn start(source: &str, max_output_bytes: usize) -> (begun: (Run, Step))
        ensures
            (begun.0@, begun.1@) == started(source@, max_output_bytes as nat),
    {
        let mut run: Run = Run {
            stage: Stage::Building,
            walk: Walk::new(MAX_RESULT_DEPTH, max_output_bytes),
            max_output_bytes,
        };
        match check_source_size(source) {
            Err(error) => {
                run.stage = Stage::Finished;
                (run, Step::Finish(Err(error)))
            },
            Ok(()) => (run, Step::Build),
        }
    }

    /// Tells the execution what came of its last step.
    pub fn step(&mut self, event: Event) -> (step: Step)
        requires
            expected(old(self)@.stage, event),
        ensures
            step@ == transition(old(self)@, event).1,
            final(self)@.stage == transition(old(self)@, event).0.stage,
            final(self)@.max_output_bytes == old(self)@.max_output_bytes,
            final(self)@.stage != Stage::Finished ==> final(self)@ == transition(
                old(self)@,
                event,
            ).0,
    {
        match event {
            Event::Raised(error) => {
                let error: ExecError = js(error, self.max_output_bytes);
                self.finish(Err(error))
            },
            Event::Ready => match self.stage {
                Stage::Building => {
                    self.stage = Stage::Installing;
                    Step::Install
                },
                Stage::Installing => {
                    self.stage = Stage::Parsing;
                    Step::Parse
                },
                _ => {
                    self.stage = Stage::Evaluating;
                    Step::Evaluate
                },
            },
            Event::Settled(settled) => self.settle(settled),
            Event::Exported(export) => match export {
                Export::Missing => self.finish(
                    Err(
                        ExecError::Exception {
                            message:
                                "no value was exported: assign your answer with `export default <value>` at the top level (not `return`, `console.log`, or `module.exports`)".to_owned(),
                        },
                    ),
                ),
                Export::Primitive => {
                    self.stage = Stage::Converting;
                    Step::Convert
                },
                Export::Object(shape) => self.vet(Some(shape)),
            },
            Event::Property(entered) => self.vet(entered),
            Event::Converted(value) => {
                let value: Value = match value {
                    Some(value) => value,
                    None => json::null(),
                };
                match check_output_size(&value, self.max_output_bytes) {
                    Ok(()) => self.finish(Ok(value)),
                    Err(error) => self.finish(Err(error)),
                }
            },
        }
    }

    fn finish(&mut self, result: Result<Value, ExecError>) -> (step: Step)
        ensures
            final(self)@ == (RunState { stage: Stage::Finished, ..old(self)@ }),
            step == Step::Finish(result),
    {
        self.stage = Stage::Finished;
        Step::Finish(result)
    }

    fn settle(&mut self, settled: Settled) -> (step: Step)
        ensures
            (final(self)@, step@) == after_evaluation(old(self)@, settled),
    {
        let max: usize = self.max_output_bytes;
        match settled {
            Settled::TimedOut => self.finish(Err(ExecError::Timeout)),
            Settled::Aborted => self.finish(
                Err(
                    ExecError::Limit {
                        what:
                            "execution aborted: a runtime limit (loop, recursion or stack) was exceeded".to_owned(),
                    },
                ),
            ),
            Settled::Failed(message) => self.finish(Err(classify(message, max))),
            Settled::Fulfilled => {
                self.stage = Stage::Exporting;
                Step::ReadExport
            },
            Settled::Rejected(reason) => self.finish(Err(classify(render_rejection(reason), max))),
            Settled::Pending => self.finish(
                Err(
                    ExecError::Exception {
                        message: "module did not finish executing".to_owned(),
                    },
                ),
            ),
        }
    }

    fn vet(&mut self, entered: Option<Shape>) -> (step: Step)
        ensures
            step@ == vetted(old(self)@, entered).1,
            final(self)@.stage == vetted(old(self)@, entered).0.stage,
            final(self)@.max_output_bytes == old(self)@.max_output_bytes,
            final(self)@.stage != Stage::Finished ==> final(self)@ == vetted(
                old(self)@,
                entered,
            ).0,
    {
        if let Some(shape) = entered {
            if let Err(error) = self.walk.enter(shape) {
                return self.finish(Err(error));
            }
        }
        match self.walk.advance() {
            Err(error) => self.finish(Err(error)),
            Ok(Next::Done) => {
                self.stage = Stage::Converting;
                Step::Convert
            },
            Ok(Next::Inspect { frame, key }) => {
                self.stage = Stage::Vetting;
                Step::Inspect { frame, key }
            },
        }
    }
}

/// The outcome of an execution: its result, and its logs on every path.
pub open spec fn concludes(outcome: Outcome, result: Result<Value, ExecError>, logs: Vec<String>)
    -> bool {
    &&& outcome.logs == logs
    &&& match result {
        Ok(value) => outcome.result == value && outcome.error is None,
        Err(error) => json::json_view(outcome.result) == Json::Null && outcome.error == Some(error),
    }
}

/// Puts the outcome of an execution together.
pub fn conclude(result: Result<Value, ExecError>, logs: Vec<String>) -> (outcome: Outcome)
    ensures
        concludes(outcome, result, logs),
{
    match result {
        Ok(value) => Outcome::ok(value, logs),
        Err(error) => Outcome::failed(error, logs),
    }
}

/// What the text of a call's arguments reads as.
pub open spec fn read_arguments(parsed: Option<Json>) -> Result<Json, Seq<char>> {
    match parsed {
        Some(json) => Ok(json),
        None => Err("tool arguments must be a JSON string"@),
    }
}

/// The arguments of a tool call, where they could be read. An argument that is no
/// JSON is a clear error, not a silent null.
pub fn accept_arguments(parsed: Option<Value>) -> (arguments: Result<Value, String>)
    ensures
        match parsed {
            Some(value) => arguments == Ok::<Value, String>(value),
            None => arguments is Err && arguments->Err_0@
                == "tool arguments must be a JSON string"@,
        },
{
    match parsed {
        Some(value) => Ok(value),
        None => Err("tool arguments must be a JSON string".to_owned()),
    }
}

/// Reads the arguments of a tool call. They arrive as JSON text: the generated
/// functions see to that.
pub fn tool_arguments(text: &str) -> (arguments: Result<Value, String>)
    ensures
        match read_arguments(json::json_parse(text@)) {
            Ok(json) => arguments is Ok && json::json_view(arguments->Ok_0) == json,
            Err(message) => arguments is Err && arguments->Err_0@ == message,
        },
        match json::json_parse(text@) {
            Some(json) => arguments is Ok && json::json_view(arguments->Ok_0) == json,
            None => arguments is Err && arguments->Err_0@
                == "tool arguments must be a JSON string"@,
        },
{
    accept_arguments(json::parse(text))
}

/// A result is only ever delivered if its text fits the output cap.
pub proof fn law_delivered_result_fits(run: RunState, event: Event)
    requires
        expected(run.stage, event),
    ensures
        transition(run, event).1 matches StepView::Finish(Ok(json)) ==> text::byte_len(
            json::json_text(json),
        ) <= run.max_output_bytes,
{
}

/// An export is converted only once it is known to be safe to convert: it is no object,
/// or the walk over it has come to its end without a refusal.
pub proof fn law_nothing_is_converted_unvetted(run: RunState, event: Event)
    requires
        expected(run.stage, event),
        transition(run, event).1 is Convert,
    ensures
        event matches Event::Exported(Export::Primitive) || {
            let next = transition(run, event).0.walk;
            &&& next.stack.len() == 0
            &&& next.visited <= run.walk.visited
            &&& match event {
                Event::Exported(Export::Object(shape)) => convert::walk_enter(run.walk, shape)
                    is Ok,
                Event::Property(Some(shape)) => convert::walk_enter(run.walk, shape) is Ok,
                Event::Property(None) => true,
                _ => false,
            }
        },
{
}

/// Until the export is read, the walk over it has not begun.
pub open spec fn walk_untouched(run: RunState) -> bool {
    stages_left(run.stage) >= stages_left(Stage::Exporting) ==> run.walk == convert::walk_start(
        MAX_RESULT_DEPTH as nat,
        run.max_output_bytes,
    )
}

/// The walk begins with the export: an execution starts with it untouched, and no event
/// before the export changes that.
pub proof fn law_walk_begins_with_the_export(
    source: Seq<char>,
    max_output_bytes: nat,
    run: RunState,
    event: Event,
)
    requires
        walk_untouched(run),
        expected(run.stage, event),
    ensures
        walk_untouched(started(source, max_output_bytes).0),
        walk_untouched(transition(run, event).0),
{
}

/// The step at which an execution stops asking for properties, where each one that it
/// asks for is answered from the heap. `ids` are the objects entered so far that it has
/// not told to be done with.
pub open spec fn vetting_end(
    heap: Seq<Node>,
    ids: Seq<usize>,
    run: RunState,
    step: StepView,
) -> StepView
    decreases run.walk.max_array_len - run.walk.visited,
{
    match step {
        StepView::Inspect { frame, key } => {
            let path = ids.take(frame + 1);
            let slot = heap[path.last() as int].slots@[key as int];
            let entered = match slot {
                Some(child) => Some(convert::shape_of(heap[child as int])),
                None => None,
            };
            let (next, then) = transition(run, Event::Property(entered));
            if then is Inspect {
                match slot {
                    Some(child) => vetting_end(heap, path.push(child), next, then),
                    None => vetting_end(heap, path, next, then),
                }
            } else {
                then
            }
        },
        _ => step,
    }
}

/// The step that a walk over the whole export leads to.
pub open spec fn after_walk(walked: Result<nat, Fault>) -> StepView {
    match walked {
        Ok(_) => StepView::Convert,
        Err(fault) => StepView::Finish(Err(fault)),
    }
}

proof fn lemma_vetting_end(heap: Seq<Node>, ids: Seq<usize>, run: RunState, bounds: Bounds)
    requires
        convert::closed_heap(heap),
        convert::in_step(heap, ids, run.walk.stack),
        run.walk.max_depth == bounds.max_depth,
        run.walk.max_array_len == bounds.max_array_len,
        bounds.max_depth <= usize::MAX,
    ensures
        ({
            let (next, then) = vetted(run, None);
            vetting_end(heap, ids, next, then) == after_walk(
                convert::resume(heap, ids, run.walk.stack, run.walk.visited, bounds),
            )
        }),
    decreases run.walk.max_array_len - run.walk.visited,
{
    convert::lemma_walk_step(heap, ids, run.walk, bounds);
    match convert::walk_advance(run.walk) {
        Ok((moved, Next::Inspect { frame, key })) => {
            let path = ids.take(frame + 1);
            assert(path.last() == ids[frame as int]);
            match heap[path.last() as int].slots@[key as int] {
                None => {
                    lemma_vetting_end(heap, path, RunState { walk: moved, ..run }, bounds);
                },
                Some(child) => {
                    match convert::walk_enter(moved, convert::shape_of(heap[child as int])) {
                        Ok(inside) => {
                            lemma_vetting_end(
                                heap,
                                path.push(child),
                                RunState { walk: inside, ..run },
                                bounds,
                            );
                        },
                        Err(_) => {},
                    }
                },
            }
        },
        _ => {},
    }
}

/// An execution converts its export exactly where the walk over the whole of it finds
/// nothing to refuse, and otherwise ends with the fault that the walk finds: whatever
/// objects the export consists of, as long as each property that is asked for is
/// answered with what is stored there.
pub proof fn law_run_converts_exactly_what_the_walk_accepts(
    heap: Seq<Node>,
    id: usize,
    run: RunState,
)
    requires
        convert::closed_heap(heap),
        id < heap.len(),
        run.stage == Stage::Exporting,
        walk_untouched(run),
    ensures
        ({
            let export = Event::Exported(Export::Object(convert::shape_of(heap[id as int])));
            let (next, step) = transition(run, export);
            vetting_end(heap, seq![id], next, step) == after_walk(
                convert::walk_all(
                    heap,
                    Some(id),
                    (Bounds {
                        max_depth: MAX_RESULT_DEPTH as nat,
                        max_array_len: run.max_output_bytes,
                    }),
                ),
            )
        }),
{
    let bounds = Bounds {
        max_depth: MAX_RESULT_DEPTH as nat,
        max_array_len: run.max_output_bytes,
    };
    convert::lemma_walk_entered(heap, id, run.walk, bounds);
    match convert::walk_enter(run.walk, convert::shape_of(heap[id as int])) {
        Ok(inside) => {
            lemma_vetting_end(heap, seq![id], RunState { walk: inside, ..run }, bounds);
        },
        Err(_) => {},
    }
}

/// An exported object whose text fits the output cap, and whose arrays and objects nest
/// within the bound, is converted and delivered.
pub proof fn law_fitting_export_is_delivered(
    heap: Seq<Node>,
    id: usize,
    value: Value,
    run: RunState,
    vetted_run: RunState,
)
    requires
        convert::closed_heap(heap),
        id < heap.len(),
        run.stage == Stage::Exporting,
        walk_untouched(run),
        convert::stands_for(heap, id as int, json::json_view(value)),
        json::nests_within(json::json_view(value), MAX_RESULT_DEPTH as nat),
        text::byte_len(json::json_text(json::json_view(value))) <= run.max_output_bytes,
        vetted_run.stage == Stage::Converting,
        vetted_run.max_output_bytes == run.max_output_bytes,
    ensures
        ({
            let export = Event::Exported(Export::Object(convert::shape_of(heap[id as int])));
            let (next, step) = transition(run, export);
            &&& vetting_end(heap, seq![id], next, step) is Convert
            &&& transition(vetted_run, Event::Converted(Some(value))).1 == StepView::Finish(
                Ok(json::json_view(value)),
            )
        }),
{
    law_run_converts_exactly_what_the_walk_accepts(heap, id, run);
    convert::law_walk_accepts_what_the_size_cap_accepts(
        heap,
        id,
        json::json_view(value),
        Bounds { max_depth: MAX_RESULT_DEPTH as nat, max_array_len: run.max_output_bytes },
    );
}

/// An execution is over exactly when it says so, and then takes no further event.
pub proof fn law_finish_is_final(run: RunState, event: Event, later: Event)
    requires
        expected(run.stage, event),
    ensures
        transition(run, event).1 is Finish <==> transition(run, event).0.stage == Stage::Finished,
        transition(run, event).1 is Finish ==> !expected(transition(run, event).0.stage, later),
{
}

/// How many stages are left.
pub open spec fn stages_left(stage: Stage) -> nat {
    match stage {
        Stage::Building => 7,
        Stage::Installing => 6,
        Stage::Parsing => 5,
        Stage::Evaluating => 4,
        Stage::Exporting => 3,
        Stage::Vetting => 2,
        Stage::Converting => 1,
        Stage::Finished => 0,
    }
}

/// Every event brings an execution nearer to its end: it leaves a stage behind, or
/// has looked at one more property, of which it looks at no more than the output
/// could hold.
pub proof fn law_every_event_is_progress(run: RunState, event: Event)
    requires
        expected(run.stage, event),
    ensures
        ({
            let next = transition(run, event).0;
            ||| stages_left(next.stage) < stages_left(run.stage)
            ||| next.stage == Stage::Vetting && run.stage == Stage::Vetting && run.walk.visited
                < next.walk.visited <= next.walk.max_array_len
        }),
{
}

/// What the module's own code threw is told to the model within the output cap and a
/// short note.
pub proof fn law_thrown_error_is_bounded(run: RunState, settled: Settled)
    requires
        settled is Failed || settled is Rejected,
    ensures
        match after_evaluation(run, settled).1 {
            StepView::Finish(Err(Fault::Exception(message))) => text::byte_len(message)
                <= run.max_output_bytes + text::byte_len(" [error truncated]"@),
            StepView::Finish(Err(Fault::Limit(message))) => text::byte_len(message)
                <= run.max_output_bytes + text::byte_len(" [error truncated]"@),
            _ => false,
        },
{
    match settled {
        Settled::Failed(message) => {
            law_error_text_is_bounded(message@, run.max_output_bytes);
        },
        Settled::Rejected(reason) => {
            law_error_text_is_bounded(rejection_text(reason), run.max_output_bytes);
        },
        _ => {},
    }
}

/// Every converted value whose text fits the output cap is delivered as it is, be it a
/// text, a number, a boolean, null, an array or an object; one whose text does not fit is
/// refused for its size. An export without a JSON form is delivered as null.
pub proof fn law_converted_value_is_delivered(run: RunState, value: Value)
    requires
        run.stage == Stage::Converting,
    ensures
        ({
            let json = json::json_view(value);
            let step = transition(run, Event::Converted(Some(value))).1;
            &&& text::byte_len(json::json_text(json)) <= run.max_output_bytes ==> step
                == StepView::Finish(Ok(json))
            &&& text::byte_len(json::json_text(json)) > run.max_output_bytes ==> step
                == StepView::Finish(Err(Fault::OutputTooLarge))
        }),
        text::byte_len(json::json_text(Json::Null)) <= run.max_output_bytes ==> transition(
            run,
            Event::Converted(None),
        ).1 == StepView::Finish(Ok(Json::Null)),
        text::byte_len(json::json_text(Json::Null)) > run.max_output_bytes ==> transition(
            run,
            Event::Converted(None),
        ).1 == StepView::Finish(Err(Fault::OutputTooLarge)),
{
}

/// From end to end: any source up to the size cap is built, installed, parsed and
/// evaluated, its export is read and, where it is not an object, converted; and whatever
/// JSON that is, if its text fits the output cap, it is the result.
pub proof fn law_execution_returns_its_export(source: Seq<char>, max_output_bytes: nat, value: Value)
    requires
        text::byte_len(source) <= MAX_SOURCE_BYTES,
        text::byte_len(json::json_text(json::json_view(value))) <= max_output_bytes,
    ensures
        ({
            let (building, build) = started(source, max_output_bytes);
            let (installing, install) = transition(building, Event::Ready);
            let (parsing, parse) = transition(installing, Event::Ready);
            let (evaluating, evaluate) = transition(parsing, Event::Ready);
            let (exporting, read) = transition(evaluating, Event::Settled(Settled::Fulfilled));
            let (converting, convert) = transition(exporting, Event::Exported(Export::Primitive));
            let (_, finish) = transition(converting, Event::Converted(Some(value)));
            &&& build is Build && expected(building.stage, Event::Ready)
            &&& install is Install && expected(installing.stage, Event::Ready)
            &&& parse is Parse && expected(parsing.stage, Event::Ready)
            &&& evaluate is Evaluate && expected(
                evaluating.stage,
                Event::Settled(Settled::Fulfilled),
            )
            &&& read is ReadExport && expected(
                exporting.stage,
                Event::Exported(Export::Primitive),
            )
            &&& convert is Convert && expected(converting.stage, Event::Converted(Some(value)))
            &&& finish == StepView::Finish(Ok(json::json_view(value)))
        }),
{
}

/// A source is refused exactly where it is larger than the cap, before anything is built.
pub proof fn law_only_oversized_sources_are_refused(source: Seq<char>, max_output_bytes: nat)
    ensures
        text::byte_len(source) <= MAX_SOURCE_BYTES ==> size_fault(source) is None && started(
            source,
            max_output_bytes,
        ).1 is Build,
        text::byte_len(source) > MAX_SOURCE_BYTES ==> {
            let fault = Fault::Limit(
                "source is larger than "@ + text::decimal(MAX_SOURCE_BYTES as nat) + " bytes"@,
            );
            &&& size_fault(source) == Some(fault)
            &&& started(source, max_output_bytes).1 == StepView::Finish(Err(fault))
        },
        started(source, max_output_bytes).0.max_output_bytes == max_output_bytes,
{
}

/// Whatever ends an execution before its export is told: an error of the engine at any
/// stage, the time running out, a limit, a promise that never settles, an export that is
/// missing.
pub proof fn law_every_failure_is_told(run: RunState, error: String)
    ensures
        transition(run, Event::Raised(error)).1 == StepView::Finish(
            Err(Fault::Exception(capped(error@, run.max_output_bytes))),
        ),
        after_evaluation(run, Settled::TimedOut).1 == StepView::Finish(Err(Fault::Timeout)),
        after_evaluation(run, Settled::Aborted).1 == StepView::Finish(
            Err(
                Fault::Limit(
                    "execution aborted: a runtime limit (loop, recursion or stack) was exceeded"@,
                ),
            ),
        ),
        after_evaluation(run, Settled::Pending).1 == StepView::Finish(
            Err(Fault::Exception("module did not finish executing"@)),
        ),
        after_evaluation(run, Settled::Fulfilled).1 is ReadExport,
        run.stage == Stage::Evaluating ==> forall|settled: Settled| #[trigger]
            transition(run, Event::Settled(settled)) == after_evaluation(run, settled),
        run.stage == Stage::Exporting ==> transition(run, Event::Exported(Export::Missing)).1
            == StepView::Finish(
            Err(
                Fault::Exception(
                    "no value was exported: assign your answer with `export default <value>` at the top level (not `return`, `console.log`, or `module.exports`)"@,
                ),
            ),
        ),
{
}

/// The message of what the code threw is told as a limit exactly where its lowercase form
/// holds one of the engine's three phrases for one, and as an exception otherwise; either
/// way it is the message itself, as far as the cap lets it.
pub proof fn law_thrown_messages_are_told_apart(message: Seq<char>, lower: Seq<char>, max: nat)
    ensures
        ({
            let limit = text::occurs(lower, "loop iteration limit"@) || text::occurs(
                lower,
                "exceeded maximum number of recursive calls"@,
            ) || text::occurs(lower, "exceeded maximum call stack length"@);
            &&& limit ==> told(message, lower) == Fault::Limit(message)
            &&& !limit ==> told(message, lower) == Fault::Exception(message)
        }),
        ({
            let shown = capped(message, max);
            classified(message, max) == told(shown, text::lowercase(shown))
        }),
{
}

/// What the code threw, and an event loop that failed, are told by their whole text.
pub proof fn law_what_was_thrown_is_told(run: RunState, name: String, message: String)
    ensures
        ({
            let told_of = |text: Seq<char>|
                StepView::Finish(Err(classified(text, run.max_output_bytes)));
            let rejected = |reason: Rejection|
                after_evaluation(run, Settled::Rejected(reason)).1;
            &&& after_evaluation(run, Settled::Failed(message)).1 == told_of(message@)
            &&& rejected(Rejection::Primitive(Some(message))) == told_of(message@)
            &&& rejected(Rejection::Primitive(None)) == told_of("uncaught exception"@)
            &&& rejected(
                Rejection::Object { name: Some(name), message: Some(message) },
            ) == told_of(name@ + ": "@ + message@)
            &&& rejected(Rejection::Object { name: None, message: Some(message) }) == told_of(
                message@,
            )
            &&& rejected(Rejection::Object { name: Some(name), message: None }) == told_of(name@)
            &&& rejected(Rejection::Object { name: None, message: None }) == told_of(
                "uncaught exception (non-error throw)"@,
            )
        }),
{
}

/// What is shown of a message that is too long is as much of its beginning as fits the
/// cap, and the note.
pub proof fn law_long_messages_are_cut_at_the_cap(message: Seq<char>, max: nat)
    requires
        text::byte_len(message) > max,
    ensures
        exists|k: int|
            0 <= k < message.len() && capped(message, max) == #[trigger] message.take(k)
                + " [error truncated]"@ && text::byte_len(message.take(k)) <= max && text::byte_len(
                message.take(k + 1),
            ) > max,
{
    let k = text::fitting(message, max) as int;
    text::law_cut_keeps_as_much_as_fits(message, max);
    assert(message.take(message.len() as int) =~= message);
    assert(capped(message, max) == message.take(k) + " [error truncated]"@);
}

/// Arguments are taken exactly where their text is JSON, and then as the very JSON that it
/// is, whatever that is; any other text is a clear error.
pub proof fn law_arguments_are_what_was_written(parsed: Option<Json>)
    ensures
        parsed matches Some(json) ==> read_arguments(parsed) == Ok::<Json, Seq<char>>(json),
        parsed is None ==> read_arguments(parsed) == Err::<Json, Seq<char>>(
            "tool arguments must be a JSON string"@,
        ),
{
}

/// An outcome holds the result of its execution and all that was logged: a value as it is
/// and no error, or null and the error.
pub proof fn law_outcomes_hold_result_and_logs(
    outcome: Outcome,
    result: Result<Value, ExecError>,
    logs: Vec<String>,
)
    requires
        concludes(outcome, result, logs),
    ensures
        outcome.logs == logs,
        result matches Ok(value) ==> outcome.result == value && outcome.error is None,
        result matches Err(error) ==> json::json_view(outcome.result) == Json::Null && outcome.error
            == Some(error),
{
}

/// A step says what is to be done, and with which result: the very JSON of the value, or
/// what the error says.
pub proof fn law_steps_say_what_they_hold(frame: usize, key: usize, value: Value, error: ExecError)
    ensures
        Step::Build@ is Build,
        Step::Install@ is Install,
        Step::Parse@ is Parse,
        Step::Evaluate@ is Evaluate,
        Step::ReadExport@ is ReadExport,
        Step::Convert@ is Convert,
        (Step::Inspect { frame, key })@ == (StepView::Inspect { frame, key }),
        Step::Finish(Ok(value))@ == StepView::Finish(Ok(json::json_view(value))),
        Step::Finish(Err(error))@ == StepView::Finish(Err(error@)),
{
}

/// Every stage takes what its step can come to: success or an error of the engine where
/// the engine is asked for something, the end of the evaluation, the export, and any answer
/// about a property.
pub proof fn law_stages_take_what_their_steps_come_to(
    error: String,
    settled: Settled,
    export: Export,
    entered: Option<Shape>,
    value: Option<Value>,
)
    ensures
        forall|stage: Stage|
            stage == Stage::Building || stage == Stage::Installing || stage == Stage::Parsing
                ==> #[trigger] expected(stage, Event::Ready) && expected(
                stage,
                Event::Raised(error),
            ),
        expected(Stage::Evaluating, Event::Settled(settled)),
        expected(Stage::Exporting, Event::Exported(export)),
        expected(Stage::Exporting, Event::Raised(error)),
        expected(Stage::Vetting, Event::Property(entered)),
        expected(Stage::Converting, Event::Converted(value)),
        expected(Stage::Converting, Event::Raised(error)),
{
}

} // verus!
