use codemode::boa::{
    accept_arguments, cap_message, check_output_size, check_source_size, classify, conclude,
    is_expected_limit_panic, js, render_rejection, tell, tool_arguments, Event, Export, Rejection,
    Run, Settled, Step, GUIDANCE, ISLAND_STACK_BYTES, MAX_SOURCE_BYTES, PARSER_FRAME_BYTES,
};
use codemode::convert::Shape;
use codemode::{Boa, ExecError};
use serde_json::Value;

fn json(text: &str) -> Value {
    serde_json::from_str(text).unwrap()
}

fn exception(error: ExecError) -> String {
    match error {
        ExecError::Exception { message } => message,
        other => panic!("expected an Exception, got {other:?}"),
    }
}

fn limit(error: ExecError) -> String {
    match error {
        ExecError::Limit { what } => what,
        other => panic!("expected a Limit, got {other:?}"),
    }
}

fn failure(step: Step) -> ExecError {
    match step {
        Step::Finish(Err(error)) => error,
        other => panic!("expected a failed finish, got {other:?}"),
    }
}

fn evaluating(max: usize) -> Run {
    let (mut run, step) = Run::start("export default 1;", max);
    assert!(matches!(step, Step::Build));
    assert!(matches!(run.step(Event::Ready), Step::Install));
    assert!(matches!(run.step(Event::Ready), Step::Parse));
    assert!(matches!(run.step(Event::Ready), Step::Evaluate));
    run
}

fn exporting(max: usize) -> Run {
    let mut run = evaluating(max);
    assert!(matches!(
        run.step(Event::Settled(Settled::Fulfilled)),
        Step::ReadExport
    ));
    run
}

#[test]
fn capabilities_of_the_engine() {
    let caps = Boa::new().capabilities();
    assert_eq!(caps.language, "javascript");
    assert!(caps.supports_async);
    assert!(!caps.hard_memory_cap);
    assert_eq!(caps.usage_guidance, GUIDANCE);
    assert!(GUIDANCE.starts_with("Write one JavaScript ES module and return its answer with `export default <value>` at the top level."));
    assert!(GUIDANCE.contains("Top-level await is allowed.\n\nReach tools only by importing"));
    assert!(GUIDANCE.ends_with("so only the final result returns."));
}

#[test]
fn source_cap_fits_the_parser_stack() {
    assert!(MAX_SOURCE_BYTES * PARSER_FRAME_BYTES <= ISLAND_STACK_BYTES);
    assert!(check_source_size(&"[".repeat(8192)).is_ok());
    assert_eq!(
        limit(check_source_size(&"[".repeat(8193)).unwrap_err()),
        "source is larger than 8192 bytes"
    );
    assert!(check_source_size(&"ä".repeat(4096)).is_ok());
    assert!(check_source_size(&"ä".repeat(4097)).is_err());
}

#[test]
fn oversized_source_is_not_even_built() {
    let (_, step) = Run::start(&"a".repeat(MAX_SOURCE_BYTES + 1), 100);
    assert_eq!(limit(failure(step)), "source is larger than 8192 bytes");
}

#[test]
fn messages_are_cut_between_characters() {
    assert_eq!(cap_message("abc".to_string(), 3), "abc");
    assert_eq!(cap_message("abcd".to_string(), 3), "abc [error truncated]");
    assert_eq!(cap_message("aäb".to_string(), 2), "a [error truncated]");
    assert_eq!(cap_message("ä€𝄞x".to_string(), 8), "ä€ [error truncated]");
    assert_eq!(cap_message("ä€𝄞x".to_string(), 9), "ä€𝄞 [error truncated]");
    assert_eq!(cap_message("ä€𝄞x".to_string(), 10), "ä€𝄞x");
    assert_eq!(cap_message("𝄞".to_string(), 0), " [error truncated]");
    assert_eq!(exception(js("abcd".to_string(), 2)), "ab [error truncated]");
}

#[test]
fn structural_limits_are_recognised() {
    assert_eq!(
        limit(classify(
            "RuntimeLimit: Maximum loop iteration limit 100 exceeded".to_string(),
            1000
        )),
        "RuntimeLimit: Maximum loop iteration limit 100 exceeded"
    );
    assert!(matches!(
        classify("Exceeded Maximum number of RECURSIVE calls".to_string(), 1000),
        ExecError::Limit { .. }
    ));
    assert!(matches!(
        classify("exceeded maximum call stack length".to_string(), 1000),
        ExecError::Limit { .. }
    ));
    assert_eq!(exception(classify("Error: boom".to_string(), 1000)), "Error: boom");
    // What is cut off is not recognised.
    assert!(matches!(
        classify("xxxx loop iteration limit".to_string(), 4),
        ExecError::Exception { .. }
    ));
    assert!(matches!(
        tell("A".to_string(), "loop iteration limit"),
        ExecError::Limit { what } if what == "A"
    ));
    assert!(matches!(
        tell("loop iteration limit".to_string(), ""),
        ExecError::Exception { .. }
    ));
}

#[test]
fn rejections_are_rendered_from_what_is_stored() {
    let object = |name: Option<&str>, message: Option<&str>| {
        render_rejection(Rejection::Object {
            name: name.map(str::to_string),
            message: message.map(str::to_string),
        })
    };
    assert_eq!(object(Some("BadThing"), Some("boom")), "BadThing: boom");
    assert_eq!(object(None, Some("boom")), "boom");
    assert_eq!(object(Some("BadThing"), None), "BadThing");
    assert_eq!(object(None, None), "uncaught exception (non-error throw)");
    assert_eq!(
        render_rejection(Rejection::Primitive(Some("7".to_string()))),
        "7"
    );
    assert_eq!(
        render_rejection(Rejection::Primitive(None)),
        "uncaught exception"
    );
}

#[test]
fn engine_errors_end_the_run_at_every_stage() {
    let raised = || Event::Raised("abcdef".to_string());
    let expected = "abc [error truncated]";
    let (mut run, _) = Run::start("", 3);
    assert_eq!(exception(failure(run.step(raised()))), expected);
    let (mut run, _) = Run::start("", 3);
    run.step(Event::Ready);
    assert_eq!(exception(failure(run.step(raised()))), expected);
    let (mut run, _) = Run::start("", 3);
    run.step(Event::Ready);
    run.step(Event::Ready);
    assert_eq!(exception(failure(run.step(raised()))), expected);
    let mut run = exporting(3);
    assert_eq!(exception(failure(run.step(raised()))), expected);
    let mut run = exporting(3);
    run.step(Event::Exported(Export::Primitive));
    assert_eq!(exception(failure(run.step(raised()))), expected);
}

#[test]
fn evaluation_ends_in_its_own_way() {
    let end = |settled| failure(evaluating(1000).step(Event::Settled(settled)));
    assert!(matches!(end(Settled::TimedOut), ExecError::Timeout));
    assert_eq!(
        limit(end(Settled::Aborted)),
        "execution aborted: a runtime limit (loop, recursion or stack) was exceeded"
    );
    assert_eq!(
        exception(end(Settled::Failed("bad".to_string()))),
        "bad"
    );
    assert!(matches!(
        end(Settled::Failed("Loop Iteration Limit".to_string())),
        ExecError::Limit { .. }
    ));
    assert_eq!(
        exception(end(Settled::Rejected(Rejection::Primitive(Some(
            "plain".to_string()
        ))))),
        "plain"
    );
    assert_eq!(
        exception(end(Settled::Pending)),
        "module did not finish executing"
    );
}

#[test]
fn exports_are_vetted_then_converted() {
    let mut run = exporting(1000);
    assert_eq!(
        exception(failure(run.step(Event::Exported(Export::Missing)))),
        "no value was exported: assign your answer with `export default <value>` at the top \
         level (not `return`, `console.log`, or `module.exports`)"
    );

    let mut run = exporting(1000);
    let shape = Shape {
        length: None,
        keys: 1,
    };
    assert!(matches!(
        run.step(Event::Exported(Export::Object(shape))),
        Step::Inspect { frame: 0, key: 0 }
    ));
    assert!(matches!(
        run.step(Event::Property(Some(shape))),
        Step::Inspect { frame: 1, key: 0 }
    ));
    assert!(matches!(run.step(Event::Property(None)), Step::Convert));
    match run.step(Event::Converted(Some(json(r#"{ "a": { "b": 1 } }"#)))) {
        Step::Finish(Ok(value)) => assert_eq!(value, json(r#"{ "a": { "b": 1 } }"#)),
        other => panic!("{other:?}"),
    }

    let mut run = exporting(1000);
    assert_eq!(
        limit(failure(run.step(Event::Exported(Export::Object(Shape {
            length: Some(1001),
            keys: 0
        }))))),
        "exported array is longer than 1000 elements"
    );
}

#[test]
fn values_without_a_json_form_count_as_null() {
    let mut run = exporting(4);
    assert!(matches!(
        run.step(Event::Exported(Export::Primitive)),
        Step::Convert
    ));
    assert!(matches!(
        run.step(Event::Converted(None)),
        Step::Finish(Ok(Value::Null))
    ));
    let mut run = exporting(3);
    run.step(Event::Exported(Export::Primitive));
    assert!(matches!(
        failure(run.step(Event::Converted(None))),
        ExecError::OutputTooLarge
    ));
}

#[test]
fn output_size_is_that_of_the_compact_text() {
    let value = json(r#"{ "a": [1, "x"] }"#);
    assert!(check_output_size(&value, 13).is_ok());
    assert!(matches!(
        check_output_size(&value, 12),
        Err(ExecError::OutputTooLarge)
    ));
}

#[test]
fn outcomes_keep_their_logs() {
    let logs = || vec!["line".to_string()];
    let ok = conclude(Ok(json("7")), logs());
    assert_eq!((ok.result, ok.logs), (json("7"), logs()));
    assert!(ok.error.is_none());
    let failed = conclude(Err(ExecError::Timeout), logs());
    assert_eq!((failed.result, failed.logs), (Value::Null, logs()));
    assert!(matches!(failed.error, Some(ExecError::Timeout)));
}

#[test]
fn arguments_must_be_json() {
    assert_eq!(tool_arguments(r#"{"n":7}"#), Ok(json(r#"{"n":7}"#)));
    assert_eq!(
        tool_arguments("not json"),
        Err("tool arguments must be a JSON string".to_string())
    );
    assert_eq!(accept_arguments(Some(json("[1]"))), Ok(json("[1]")));
    assert_eq!(
        accept_arguments(None),
        Err("tool arguments must be a JSON string".to_string())
    );
}

#[test]
fn only_the_limit_panic_is_expected() {
    assert!(is_expected_limit_panic(
        "called on a RuntimeLimit native error that"
    ));
    assert!(!is_expected_limit_panic("index out of bounds"));
    assert!(!is_expected_limit_panic(""));
}
