//! Executions driven through the real JavaScript engine: each step that a `Run` asks
//! for is carried out on Boa, and what came of it is reported back.

use std::cell::RefCell;
use std::rc::Rc;

use boa_engine::builtins::promise::PromiseState;
use boa_engine::builtins::proxy::Proxy;
use boa_engine::context::ContextBuilder;
use boa_engine::module::{ModuleLoader, Referrer};
use boa_engine::object::builtins::JsPromise;
use boa_engine::property::PropertyKey;
use boa_engine::{
    Context, JsArgs, JsNativeError, JsObject, JsResult, JsString, JsValue, Module, NativeFunction,
    Source,
};
use codemode::boa::{
    conclude, tool_arguments, Event, Export, Rejection, Run, Settled, Step, MAX_SOURCE_BYTES,
};
use codemode::convert::Shape;
use codemode::logs::{LogBuffer, Offer};
use codemode::modules::ServerModules;
use codemode::{ExecError, Limits, Outcome, ServerTools, ToolInfo};
use serde_json::Value;

fn json(text: &str) -> Value {
    serde_json::from_str(text).unwrap()
}

struct Loader(ServerModules);

impl ModuleLoader for Loader {
    async fn load_imported_module(
        self: Rc<Self>,
        _referrer: Referrer,
        specifier: JsString,
        context: &RefCell<&mut Context>,
    ) -> JsResult<Module> {
        match self.0.resolve(&specifier.to_std_string_escaped()) {
            Ok(source) => Module::parse(
                Source::from_bytes(source.as_bytes()),
                None,
                &mut context.borrow_mut(),
            ),
            Err(message) => Err(JsNativeError::typ().with_message(message).into()),
        }
    }
}

type Door = fn(&JsValue, &[JsValue], &mut Context) -> JsResult<JsValue>;

fn text_of(value: &JsValue, context: &mut Context) -> String {
    value.to_string(context).unwrap().to_std_string_escaped()
}

/// A door that hands the arguments back.
fn echo(_this: &JsValue, args: &[JsValue], context: &mut Context) -> JsResult<JsValue> {
    let text = text_of(args.get_or_undefined(2), context);
    match tool_arguments(&text) {
        Ok(value) => JsValue::from_json(&value, context),
        Err(message) => Err(JsNativeError::typ().with_message(message).into()),
    }
}

/// A door that names the tool that was called.
fn name_the_tool(_this: &JsValue, args: &[JsValue], context: &mut Context) -> JsResult<JsValue> {
    let tool = text_of(args.get_or_undefined(1), context);
    let mut map = serde_json::Map::new();
    map.insert("called".to_string(), Value::String(tool));
    JsValue::from_json(&Value::Object(map), context)
}

/// A door behind which every call fails.
fn boom(_this: &JsValue, _args: &[JsValue], _context: &mut Context) -> JsResult<JsValue> {
    Err(JsNativeError::typ().with_message("boom").into())
}

fn stored(object: &JsObject, key: &PropertyKey) -> Option<JsValue> {
    object
        .borrow()
        .properties()
        .get(key)
        .and_then(|d| d.value().cloned())
}

fn keys(object: &JsObject, context: &mut Context) -> Vec<PropertyKey> {
    if object.is::<Proxy>() {
        Vec::new()
    } else {
        object.own_property_keys(context).unwrap_or_default()
    }
}

fn shape(object: &JsObject, keys: &[PropertyKey]) -> Shape {
    let length = if object.is_array() {
        stored(object, &JsString::from("length").into())
            .and_then(|len| len.as_number())
            .map(|len| len as u64)
    } else {
        None
    };
    Shape {
        length,
        keys: keys.len(),
    }
}

fn rejection(reason: &JsValue, context: &mut Context) -> Rejection {
    match reason.as_object() {
        None => Rejection::Primitive(
            reason
                .to_string(context)
                .ok()
                .map(|s| s.to_std_string_escaped()),
        ),
        Some(object) => {
            let text = |name: &str| {
                stored(&object, &JsString::from(name).into())
                    .and_then(|v| v.as_string().map(|s| s.to_std_string_escaped()))
            };
            Rejection::Object {
                name: text("name"),
                message: text("message"),
            }
        }
    }
}

fn settled(promise: &JsPromise, context: &mut Context) -> Settled {
    match promise.state() {
        PromiseState::Fulfilled(_) => Settled::Fulfilled,
        PromiseState::Rejected(reason) => Settled::Rejected(rejection(&reason, context)),
        PromiseState::Pending => Settled::Pending,
    }
}

/// What was logged, line by line.
fn logged(context: &mut Context, budget: usize) -> Vec<String> {
    let mut logs = LogBuffer::new(budget);
    let lines = context
        .eval(Source::from_bytes(b"globalThis.__lines"))
        .unwrap();
    if let Some(lines) = lines.as_object() {
        let count = lines
            .get(JsString::from("length"), context)
            .unwrap()
            .as_number()
            .unwrap() as u32;
        for i in 0..count {
            let line = lines.get(i, context).unwrap();
            let line = line.as_string().unwrap();
            if logs.offer(line.len()) == Offer::Wanted {
                logs.push(line.to_std_string_escaped());
            }
        }
    }
    logs.into_lines()
}

/// Evaluates a module in a task of its own, so that a panic of the engine, which it
/// raises where a runtime limit trips, is contained. The context is gone then.
fn evaluate(mut context: Context, module: Module) -> Option<(Context, Settled)> {
    let rt = tokio::runtime::Builder::new_current_thread()
        .build()
        .unwrap();
    tokio::task::LocalSet::new().block_on(&rt, async move {
        tokio::task::spawn_local(async move {
            let promise = module.load_link_evaluate(&mut context);
            let settled = match context.run_jobs() {
                Ok(()) => settled(&promise, &mut context),
                Err(e) => Settled::Failed(e.to_string()),
            };
            (context, settled)
        })
        .await
        .ok()
    })
}

fn run_with(source: &str, servers: Vec<ServerTools>, door: Door, limits: Limits) -> Outcome {
    let loader = Rc::new(Loader(ServerModules::new(&servers)));
    let mut context = ContextBuilder::new().module_loader(loader).build().unwrap();
    let mut module: Option<Module> = None;
    let mut value = JsValue::undefined();
    let mut path: Vec<(JsObject, Vec<PropertyKey>)> = Vec::new();
    let (mut run, mut step) = Run::start(source, limits.max_output_bytes);
    let result = loop {
        let event = match step {
            Step::Finish(result) => break result,
            Step::Build => {
                let bounds = context.runtime_limits_mut();
                bounds.set_loop_iteration_limit(limits.max_loop_iterations);
                bounds.set_recursion_limit(limits.max_recursion_depth);
                bounds.set_stack_size_limit(limits.max_stack_size);
                Event::Ready
            }
            Step::Install => {
                context
                    .register_global_builtin_callable(
                        JsString::from("__codemodeCall"),
                        3,
                        NativeFunction::from_fn_ptr(door),
                    )
                    .unwrap();
                context
                    .eval(Source::from_bytes(
                        b"globalThis.__lines = []; globalThis.console = { \
                          log(...a) { __lines.push(a.map(String).join(' ')); } };",
                    ))
                    .unwrap();
                Event::Ready
            }
            Step::Parse => {
                match Module::parse(Source::from_bytes(source.as_bytes()), None, &mut context) {
                    Ok(parsed) => {
                        module = Some(parsed);
                        Event::Ready
                    }
                    Err(e) => Event::Raised(e.to_string()),
                }
            }
            Step::Evaluate => {
                let evaluated = evaluate(context, module.clone().unwrap());
                let settled;
                (context, settled) = match evaluated {
                    Some(evaluated) => evaluated,
                    None => (Context::default(), Settled::Aborted),
                };
                Event::Settled(settled)
            }
            Step::ReadExport => {
                let namespace = module.as_ref().unwrap().namespace(&mut context);
                match namespace.get(JsString::from("default"), &mut context) {
                    Err(e) => Event::Raised(e.to_string()),
                    Ok(default) if default.is_undefined() => Event::Exported(Export::Missing),
                    Ok(default) => {
                        value = default.clone();
                        Event::Exported(match default.as_object() {
                            None => Export::Primitive,
                            Some(object) => {
                                let object = object.clone();
                                let own = keys(&object, &mut context);
                                let shape = shape(&object, &own);
                                path.push((object, own));
                                Export::Object(shape)
                            }
                        })
                    }
                }
            }
            Step::Inspect { frame, key } => {
                path.truncate(frame + 1);
                let child = stored(&path[frame].0, &path[frame].1[key])
                    .and_then(|v| v.as_object().map(|o| o.clone()));
                Event::Property(child.map(|object| {
                    let own = keys(&object, &mut context);
                    let shape = shape(&object, &own);
                    path.push((object, own));
                    shape
                }))
            }
            Step::Convert => match value.to_json(&mut context) {
                Ok(json) => Event::Converted(json),
                Err(e) => Event::Raised(e.to_string()),
            },
        };
        step = run.step(event);
    };
    let logs = logged(&mut context, limits.max_output_bytes);
    conclude(result, logs)
}

fn run(source: &str, servers: Vec<ServerTools>, door: Door) -> Outcome {
    run_with(source, servers, door, Limits::default())
}

fn capped(max_output_bytes: usize) -> Limits {
    Limits {
        max_output_bytes,
        ..Limits::default()
    }
}

fn demo_servers() -> Vec<ServerTools> {
    vec![ServerTools {
        name: "demo".to_string(),
        tools: vec![ToolInfo {
            name: "echo".to_string(),
            description: None,
            input_schema: json(r#"{ "type": "object" }"#),
        }],
    }]
}

#[test]
fn imports_and_calls_a_tool() {
    let outcome = run(
        "import * as demo from './servers/demo';\n\
         const r = await demo.echo({ hi: 1 });\n\
         export default r;",
        demo_servers(),
        echo,
    );
    assert!(
        outcome.error.is_none(),
        "unexpected error: {:?}",
        outcome.error
    );
    assert_eq!(outcome.result, json(r#"{ "hi": 1 }"#));
}

#[test]
fn captures_console_log() {
    let outcome = run("console.log('hello', 42); export default 1;", vec![], echo);
    assert!(outcome.error.is_none());
    assert_eq!(outcome.logs, vec!["hello 42".to_string()]);
}

#[test]
fn handles_non_identifier_tool_names() {
    let servers = vec![ServerTools {
        name: "demo".to_string(),
        tools: vec![ToolInfo {
            name: "weird-tool.name".to_string(),
            description: None,
            input_schema: json("{}"),
        }],
    }];
    let outcome = run(
        "import * as demo from './servers/demo';\n\
         const r = await demo['weird-tool.name']({});\n\
         export default r;",
        servers,
        name_the_tool,
    );
    assert!(outcome.error.is_none(), "error: {:?}", outcome.error);
    assert_eq!(outcome.result, json(r#"{ "called": "weird-tool.name" }"#));
}

#[test]
fn unknown_server_import_fails() {
    let outcome = run(
        "import * as x from './servers/nope'; export default 1;",
        demo_servers(),
        echo,
    );
    let Some(ExecError::Exception { message }) = outcome.error else {
        panic!("expected a Js error, got {:?}", outcome.error);
    };
    assert!(
        message.contains("demo"),
        "should list available servers: {message}"
    );
}

#[test]
fn missing_default_export_is_a_clear_error() {
    let outcome = run("const answer = 41 + 1; console.log(answer);", vec![], echo);
    let Some(ExecError::Exception { message }) = outcome.error else {
        panic!("expected a Js error, got {:?}", outcome.error);
    };
    assert!(
        message.contains("export default"),
        "should name the fix: {message}"
    );
    assert_eq!(outcome.result, Value::Null);
    assert_eq!(outcome.logs, vec!["42".to_string()]);
}

#[test]
fn explicit_null_export_is_allowed() {
    let outcome = run("export default null;", vec![], echo);
    assert!(
        outcome.error.is_none(),
        "unexpected error: {:?}",
        outcome.error
    );
    assert_eq!(outcome.result, Value::Null);
}

#[test]
fn sandbox_exposes_no_host_globals() {
    let outcome = run(
        "const present = [];\n\
         for (const n of ['fetch','process','require','Deno','XMLHttpRequest','WebSocket','global']) {\n\
           if (typeof globalThis[n] !== 'undefined') present.push(n);\n\
         }\n\
         export default present;",
        vec![],
        echo,
    );
    assert!(outcome.error.is_none(), "{:?}", outcome.error);
    assert_eq!(outcome.result, json("[]"));
}

#[test]
fn bridge_global_is_reachable_but_not_enumerable() {
    let outcome = run(
        "export default {\n\
           reachable: typeof __codemodeCall === 'function',\n\
           enumerable: Object.keys(globalThis).includes('__codemodeCall'),\n\
         };",
        vec![],
        echo,
    );
    assert!(outcome.error.is_none(), "{:?}", outcome.error);
    assert_eq!(
        outcome.result,
        json(r#"{ "reachable": true, "enumerable": false }"#)
    );
}

#[test]
fn frees_memory_between_runs() {
    let big = run(
        "const a = new Array(500000).fill(7); export default a.length;",
        vec![],
        echo,
    );
    assert!(big.error.is_none(), "{:?}", big.error);
    assert_eq!(big.result, json("500000"));

    let after = run("export default 1 + 1;", vec![], echo);
    assert!(after.error.is_none());
    assert_eq!(after.result, json("2"));
}

#[test]
fn infinite_loop_is_caught_not_panicking() {
    let limits = Limits {
        max_loop_iterations: 100_000,
        ..Limits::default()
    };
    let outcome = run_with("while (true) {} export default 1;", vec![], echo, limits);
    assert!(
        matches!(outcome.error, Some(ExecError::Limit { .. })),
        "expected a Limit error, got {:?}",
        outcome.error
    );
    let after = run("export default 2 + 2;", vec![], echo);
    assert_eq!(after.result, json("4"));
}

#[test]
fn recursion_limit_trips() {
    let limits = Limits {
        max_recursion_depth: 20,
        ..Limits::default()
    };
    let outcome = run_with(
        "function r(n){ return n > 0 ? r(n - 1) + 1 : 0; } export default r(100);",
        vec![],
        echo,
        limits,
    );
    assert!(
        matches!(outcome.error, Some(ExecError::Limit { .. })),
        "expected a Limit error, got {:?}",
        outcome.error
    );
}

/// The language-neutral contract of a backend, by its canonical programs.
#[test]
fn boa_passes_the_conformance_suite() {
    let plain = |source: &str| run(source, vec![], echo);

    let out = plain("export default 6 * 7;");
    assert!(out.error.is_none(), "{:?}", out.error);
    assert_eq!(out.result, json("42"));

    let out = run(
        "import * as demo from './servers/demo';\n\
         export default await demo.echo({ n: 7 });",
        demo_servers(),
        echo,
    );
    assert!(out.error.is_none(), "{:?}", out.error);
    assert_eq!(out.result, json(r#"{ "n": 7 }"#));

    let out = plain("throw new Error('boom'); export default 1;");
    assert!(matches!(out.error, Some(ExecError::Exception { .. })));

    let out = plain(
        "export default typeof fetch === 'undefined' \
         && typeof process === 'undefined' \
         && typeof require === 'undefined' \
         && typeof Deno === 'undefined';",
    );
    assert!(out.error.is_none(), "{:?}", out.error);
    assert_eq!(out.result, json("true"));

    for source in [
        "while (true) {} export default 1;",
        "function f() { return f(); } f(); export default 1;",
    ] {
        let out = plain(source);
        assert!(
            matches!(out.error, Some(ExecError::Timeout | ExecError::Limit { .. })),
            "{:?}",
            out.error
        );
    }

    let out = plain("export default 'x'.repeat(2000000);");
    assert!(matches!(out.error, Some(ExecError::OutputTooLarge)));

    let out = plain("globalThis.__codemodeProbe = 123; export default 1;");
    assert!(out.error.is_none(), "{:?}", out.error);
    let out = plain("export default typeof globalThis.__codemodeProbe === 'undefined';");
    assert!(out.error.is_none(), "{:?}", out.error);
    assert_eq!(out.result, json("true"));
}

#[test]
fn rejects_oversized_source() {
    let src = "a".repeat(MAX_SOURCE_BYTES + 1);
    let outcome = run(&src, vec![], echo);
    assert!(
        matches!(outcome.error, Some(ExecError::Limit { .. })),
        "expected a Limit error, got {:?}",
        outcome.error
    );
}

#[test]
fn rejects_oversized_result() {
    let outcome = run_with("export default 'x'.repeat(10000);", vec![], echo, capped(256));
    assert!(matches!(outcome.error, Some(ExecError::OutputTooLarge)));
}

#[test]
fn caps_oversized_exception_message() {
    let outcome = run_with(
        "throw new Error('x'.repeat(1000000));",
        vec![],
        echo,
        capped(256),
    );
    let Some(ExecError::Exception { message }) = outcome.error else {
        panic!("expected an exception, got {:?}", outcome.error);
    };
    assert!(
        message.len() < 512,
        "exception message not capped: {} bytes",
        message.len()
    );
}

#[test]
fn caps_oversized_primitive_throw() {
    let outcome = run_with("throw 'x'.repeat(1000000);", vec![], echo, capped(256));
    let Some(ExecError::Exception { message }) = outcome.error else {
        panic!("expected an exception, got {:?}", outcome.error);
    };
    assert!(
        message.len() < 512,
        "primitive throw message not capped: {} bytes",
        message.len()
    );
}

#[test]
fn caps_log_output() {
    let outcome = run_with(
        "for (let i = 0; i < 1000; i++) console.log('noisy log line number ' + i);\n\
         export default 'done';",
        vec![],
        echo,
        capped(200),
    );
    assert!(outcome.error.is_none(), "{:?}", outcome.error);
    let bytes: usize = outcome.logs.iter().map(|l| l.len()).sum();
    assert!(bytes <= 256, "logs not capped: {bytes} bytes");
    assert_eq!(
        outcome.logs.last().map(String::as_str),
        Some("[logs truncated]")
    );
}

#[test]
fn empty_log_lines_are_budgeted() {
    let outcome = run_with(
        "for (let i = 0; i < 1000; i++) console.log(''); export default 'done';",
        vec![],
        echo,
        capped(10),
    );
    assert!(outcome.error.is_none(), "{:?}", outcome.error);
    assert!(
        outcome.logs.len() <= 11,
        "empty logs not bounded: {} lines",
        outcome.logs.len()
    );
}

#[test]
fn rejects_pathologically_deep_results() {
    let outcome = run(
        "let a = []; for (let i = 0; i < 1000; i++) a = [a]; export default a;",
        vec![],
        echo,
    );
    assert!(
        matches!(outcome.error, Some(ExecError::Limit { .. })),
        "expected a Limit error, got {:?}",
        outcome.error
    );
}

#[test]
fn rejects_deep_results_hidden_behind_wide_padding() {
    let outcome = run(
        "const root = {};\n\
         for (let i = 0; i < 120000; i++) root['p' + i] = 1;\n\
         let chain = []; for (let i = 0; i < 1000; i++) chain = [chain];\n\
         root.z_deep = chain;\n\
         export default root;",
        vec![],
        echo,
    );
    assert!(
        matches!(outcome.error, Some(ExecError::Limit { .. })),
        "expected a Limit error, got {:?}",
        outcome.error
    );
}

#[test]
fn rejects_dag_shaped_results_without_hanging() {
    let started = std::time::Instant::now();
    let outcome = run(
        "let x = { a: 1 };\n\
         for (let i = 0; i < 60; i++) x = { l: x, r: x };\n\
         export default x;",
        vec![],
        echo,
    );
    assert!(
        matches!(outcome.error, Some(ExecError::OutputTooLarge)),
        "expected OutputTooLarge, got {:?}",
        outcome.error
    );
    assert!(
        started.elapsed() < std::time::Duration::from_secs(5),
        "DAG rejection should be fast, took {:?}",
        started.elapsed()
    );
}

#[test]
fn accepts_benign_shared_subobjects() {
    let outcome = run(
        "const shared = { x: 1 };\n\
         export default { a: shared, b: shared, c: shared };",
        vec![],
        echo,
    );
    assert!(
        outcome.error.is_none(),
        "unexpected error: {:?}",
        outcome.error
    );
    assert_eq!(
        outcome.result,
        json(r#"{ "a": { "x": 1 }, "b": { "x": 1 }, "c": { "x": 1 } }"#)
    );
}

#[test]
fn rejects_huge_sparse_array_results() {
    let outcome = run(
        "const a = []; a.length = 4294967295; export default a;",
        vec![],
        echo,
    );
    assert!(
        matches!(outcome.error, Some(ExecError::Limit { .. })),
        "expected a Limit error, got {:?}",
        outcome.error
    );
}

#[test]
fn allows_normally_nested_results() {
    let outcome = run(
        "export default { a: { b: { c: [1, 2, { d: 3 }] } } };",
        vec![],
        echo,
    );
    assert!(outcome.error.is_none(), "{:?}", outcome.error);
    assert_eq!(
        outcome.result,
        json(r#"{ "a": { "b": { "c": [1, 2, { "d": 3 }] } } }"#)
    );
}

#[test]
fn getters_are_not_invoked_during_result_conversion() {
    let outcome = run(
        "function deep(n) { let o = {}; for (let i = 0; i < n; i++) o = { next: o }; return o; }\n\
         const o = {};\n\
         Object.defineProperty(o, 'trigger', { enumerable: true, get() { o.payload = deep(400); return 0; } });\n\
         o.payload = 1;\n\
         export default o;",
        vec![],
        echo,
    );
    assert!(
        outcome.error.is_none(),
        "getter must not run during conversion, got {:?}",
        outcome.error
    );
    assert_eq!(outcome.result, json(r#"{ "trigger": null, "payload": 1 }"#));
}

#[test]
fn rejection_reason_tostring_is_not_invoked() {
    let outcome = run(
        "throw { name: 'BadThing', message: 'boom', \
         toString() { return 'TOSTRING-RAN'; } };\n\
         export default 1;",
        vec![],
        echo,
    );
    match outcome.error {
        Some(ExecError::Exception { message }) => {
            assert!(
                message.contains("boom") && message.contains("BadThing"),
                "expected the stored name/message, got: {message}"
            );
            assert!(
                !message.contains("TOSTRING-RAN"),
                "toString was invoked during rejection rendering: {message}"
            );
        }
        other => panic!("expected an Exception, got {other:?}"),
    }
}

#[test]
fn rejection_with_primitive_reason_renders() {
    let outcome = run("throw 'plain string error';", vec![], echo);
    assert!(
        matches!(&outcome.error, Some(ExecError::Exception { message }) if message.contains("plain string error")),
        "got: {:?}",
        outcome.error
    );
}

#[test]
fn bridge_error_surfaces() {
    let outcome = run(
        "import * as demo from './servers/demo';\n\
         await demo.echo({}); export default 'unreached';",
        demo_servers(),
        boom,
    );
    assert!(matches!(outcome.error, Some(ExecError::Exception { .. })));
}

#[test]
fn invalid_direct_bridge_args_error_not_null() {
    let outcome = run(
        "const c = globalThis.__codemodeCall;\n\
         await c('demo', 'echo', 'not json');\n\
         export default 'unreached';",
        demo_servers(),
        echo,
    );
    match outcome.error {
        Some(ExecError::Exception { message }) => {
            assert!(message.contains("JSON"), "got: {message}");
        }
        other => panic!("expected a JS error, got {other:?}"),
    }
}

#[test]
fn source_that_does_not_parse_is_an_exception() {
    let outcome = run("export default", vec![], echo);
    assert!(
        matches!(outcome.error, Some(ExecError::Exception { .. })),
        "{:?}",
        outcome.error
    );
}

#[test]
fn hostile_description_does_not_leave_its_comment() {
    let servers = vec![ServerTools {
        name: "demo".to_string(),
        tools: vec![ToolInfo {
            name: "echo".to_string(),
            description: Some("*/ throw new Error('escaped'); /*\r\n**//".to_string()),
            input_schema: json(r#"{ "properties": { "a*/b": { "type": "string" } } }"#),
        }],
    }];
    let outcome = run(
        "import * as demo from './servers/demo'; export default await demo.echo({ n: 7 });",
        servers,
        echo,
    );
    assert!(outcome.error.is_none(), "{:?}", outcome.error);
    assert_eq!(outcome.result, json(r#"{ "n": 7 }"#));
}

#[test]
fn depth_cap_is_exact() {
    let nested = |levels: usize| {
        run(
            &format!("let a = 1; for (let i = 0; i < {levels}; i++) a = [a]; export default a;"),
            vec![],
            echo,
        )
    };
    let fits = nested(120);
    assert!(fits.error.is_none(), "{:?}", fits.error);
    let deep = nested(121);
    assert!(
        matches!(&deep.error, Some(ExecError::Limit { what }) if what == "exported value nests deeper than 120 levels"),
        "{:?}",
        deep.error
    );
}

#[test]
fn proxies_are_not_enumerated() {
    let outcome = run(
        "export default new Proxy({}, { ownKeys() { throw new Error('trapped'); } });",
        vec![],
        echo,
    );
    assert!(
        !matches!(&outcome.error, Some(ExecError::Limit { .. })),
        "{:?}",
        outcome.error
    );
}

#[test]
fn hostile_names_stay_in_their_literals() {
    for name in [
        "\"); throw new Error('escaped'); (\"",
        "\\",
        "\\\"",
        "line\nbreak\r\u{2028}",
        "\u{0}\u{1f}\u{7f}",
        "*/",
    ] {
        let servers = vec![ServerTools {
            name: "demo".to_string(),
            tools: vec![ToolInfo {
                name: name.to_string(),
                description: None,
                input_schema: json("{}"),
            }],
        }];
        let outcome = run(
            "import * as demo from './servers/demo';\n\
             export default await Object.values(demo)[0]({});",
            servers,
            name_the_tool,
        );
        assert!(outcome.error.is_none(), "{name:?}: {:?}", outcome.error);
        assert_eq!(outcome.result["called"], Value::String(name.to_string()));
    }
}

#[test]
fn results_that_fit_are_never_refused_by_the_walk() {
    for (source, text) in [
        ("[]", "[]"),
        ("[1, 2, 3]", "[1,2,3]"),
        ("[[], [[]], [[[]]]]", "[[],[[]],[[[]]]]"),
        ("[, , 7]", "[null,null,7]"),
        ("({})", "{}"),
        ("({ a: 1, '': [null, { b: [] }] })", r#"{"a":1,"":[null,{"b":[]}]}"#),
        ("((x) => [x, x, x])([0])", "[[0],[0],[0]]"),
        ("({ get a() { return 1; } })", r#"{"a":null}"#),
    ] {
        let source = format!("export default {source};");
        let exact = run_with(&source, vec![], echo, capped(text.len()));
        assert!(exact.error.is_none(), "{text}: {:?}", exact.error);
        assert_eq!(exact.result, json(text));
        let short = run_with(&source, vec![], echo, capped(text.len() - 1));
        assert!(
            matches!(&short.error, Some(ExecError::OutputTooLarge)),
            "{text}: {:?}",
            short.error
        );
    }
}
