use codemode::modules::{
    arg_signature, available, jsdoc, json_lit, json_type_name, module_source, ServerModules,
};
use codemode::{ServerTools, ToolInfo};
use serde_json::Value;

fn json(text: &str) -> Value {
    serde_json::from_str(text).unwrap()
}

fn tool(name: &str, description: Option<&str>, schema: &str) -> ToolInfo {
    ToolInfo {
        name: name.to_string(),
        description: description.map(str::to_string),
        input_schema: json(schema),
    }
}

#[test]
fn module_source_emits_typed_param_signature() {
    let server = ServerTools {
        name: "fs".to_string(),
        tools: vec![ToolInfo {
            name: "readFile".to_string(),
            description: Some("Read a file".to_string()),
            input_schema: json(
                r#"{
                    "type": "object",
                    "properties": {
                        "path": { "type": "string" },
                        "encoding": { "type": "string" },
                        "lines": { "type": "integer" }
                    },
                    "required": ["path"]
                }"#,
            ),
        }],
    };
    let src = module_source(&server);
    assert!(src.contains("Read a file"), "missing description: {src}");
    assert!(
        src.contains("@param args { path: string, encoding?: string, lines?: number }"),
        "missing/incorrect signature: {src}"
    );
}

#[test]
fn module_source_sanitizes_comment_breakout_in_field_names() {
    let server = ServerTools {
        name: "x".to_string(),
        tools: vec![ToolInfo {
            name: "t".to_string(),
            description: None,
            input_schema: json(
                r#"{ "type": "object", "properties": { "*/ evil": { "type": "string" } } }"#,
            ),
        }],
    };
    let src = module_source(&server);
    assert!(
        !src.contains("*/ evil"),
        "comment breakout not neutralized: {src}"
    );
}

#[test]
fn module_source_is_exact() {
    let server = ServerTools {
        name: "a\"b".to_string(),
        tools: vec![
            tool("echo", None, "{}"),
            tool("a-b", Some("Say\r\nit */ twice\n\n"), "{}"),
        ],
    };
    let expected = [
        "const __c = globalThis.__codemodeCall;\n",
        "function __t0(args) { return __c(\"a\\\"b\", \"echo\", JSON.stringify(args === undefined ? {} : args)); }\n",
        "export { __t0 as \"echo\" };\n",
        "/**\n * Say\n * it * / twice\n * \n */\n",
        "function __t1(args) { return __c(\"a\\\"b\", \"a-b\", JSON.stringify(args === undefined ? {} : args)); }\n",
        "export { __t1 as \"a-b\" };\n",
    ]
    .concat();
    assert_eq!(module_source(&server), expected);
}

#[test]
fn comment_is_closed_only_at_its_end() {
    for text in ["*/", "**/", "*//*/", "/*\n/", "*\n/", "a *\r/", "\r*/\r\n*/"] {
        let doc = jsdoc(&tool("t", Some(text), "{}"));
        assert_eq!(doc.matches("*/").count(), 1, "{doc:?}");
        assert!(doc.ends_with(" */\n"), "{doc:?}");
        assert!(doc.starts_with("/**\n"), "{doc:?}");
    }
}

#[test]
fn nothing_to_say_makes_no_comment() {
    assert_eq!(jsdoc(&tool("t", None, "{}")), "");
    assert_eq!(jsdoc(&tool("t", Some(""), r#"{ "properties": {} }"#)), "");
    assert_eq!(jsdoc(&tool("t", None, r#"{ "properties": [] }"#)), "");
    assert_eq!(
        jsdoc(&tool("t", Some(""), r#"{ "properties": { "a": {} } }"#)),
        "/**\n * @param args { a?: any }\n */\n"
    );
    assert_eq!(
        jsdoc(&tool(
            "t",
            Some("Do it"),
            r#"{ "properties": { "a": {} }, "required": ["a"] }"#
        )),
        "/**\n * Do it\n * @param args { a: any }\n */\n"
    );
}

#[test]
fn last_carriage_return_stays_without_a_line_feed() {
    assert_eq!(jsdoc(&tool("t", Some("a\r"), "{}")), "/**\n * a\r\n */\n");
    assert_eq!(jsdoc(&tool("t", Some("\n"), "{}")), "/**\n * \n */\n");
}

#[test]
fn property_types_are_rough() {
    let cases = [
        (r#"{ "type": "string" }"#, "string"),
        (r#"{ "type": "number" }"#, "number"),
        (r#"{ "type": "integer" }"#, "number"),
        (r#"{ "type": "boolean" }"#, "boolean"),
        (r#"{ "type": "array" }"#, "array"),
        (r#"{ "type": "object" }"#, "object"),
        (r#"{ "type": "null" }"#, "null"),
        (r#"{ "type": "date" }"#, "any"),
        (r#"{ "type": [1, "null", "string"] }"#, "null"),
        (r#"{ "type": [1, 2] }"#, "any"),
        (r#"{ "type": 7 }"#, "any"),
        (r#"{}"#, "any"),
        (r#"[]"#, "any"),
    ];
    for (schema, expected) in cases {
        assert_eq!(json_type_name(&json(schema)), expected, "{schema}");
    }
}

#[test]
fn signature_needs_properties() {
    assert_eq!(arg_signature(&json("{}")), None);
    assert_eq!(arg_signature(&json("[]")), None);
    assert_eq!(arg_signature(&json(r#"{ "properties": {} }"#)), None);
    assert_eq!(
        arg_signature(&json(
            r#"{ "properties": { "b": { "type": "null" }, "a": {} }, "required": [1, "a"] }"#
        )),
        Some("{ b?: null, a: any }".to_string())
    );
    assert_eq!(
        arg_signature(&json(r#"{ "properties": { "b": {} }, "required": "b" }"#)),
        Some("{ b?: any }".to_string())
    );
}

#[test]
fn literals_are_escaped() {
    assert_eq!(json_lit("a\"b\\c\n"), r#""a\"b\\c\n""#);
    assert_eq!(
        json_lit("\u{8}\t\u{c}\r\u{0}\u{1f}\u{7f}/ä\u{2028}"),
        "\"\\b\\t\\f\\r\\u0000\\u001f\u{7f}/ä\u{2028}\""
    );
}

#[test]
fn imports_resolve_to_the_last_server_of_a_name() {
    let servers = vec![
        ServerTools {
            name: "demo".to_string(),
            tools: vec![tool("old", None, "{}")],
        },
        ServerTools {
            name: "other".to_string(),
            tools: vec![],
        },
        ServerTools {
            name: "demo".to_string(),
            tools: vec![tool("new", None, "{}")],
        },
    ];
    let modules = ServerModules::new(&servers);
    assert_eq!(
        modules.resolve("./servers/demo"),
        Ok(&module_source(&servers[2]))
    );
    assert_eq!(
        modules.resolve("./servers/other"),
        Ok(&"const __c = globalThis.__codemodeCall;\n".to_string())
    );
    assert_eq!(
        modules.resolve("demo"),
        Err("module not found: demo. Import a server as `import * as x from './servers/<name>'`; \
             available servers: demo, other, demo"
            .to_string())
    );
    assert_eq!(
        ServerModules::new(&vec![]).resolve("fs"),
        Err("module not found: fs. Import a server as `import * as x from './servers/<name>'`; \
             available servers: (none)"
            .to_string())
    );
}

#[test]
fn available_servers_are_named() {
    assert_eq!(available(&vec![]), "(none)");
    assert_eq!(available(&vec!["a".to_string()]), "a");
    assert_eq!(available(&vec!["a".to_string(), "b".to_string()]), "a, b");
}

#[test]
fn internal_names_count_past_nine() {
    let tools = (0..12)
        .map(|i| tool(&format!("tool{i}"), None, "{}"))
        .collect();
    let source = module_source(&ServerTools {
        name: "many".to_string(),
        tools,
    });
    for i in 0..12 {
        assert_eq!(
            source
                .matches(&format!("export {{ __t{i} as \"tool{i}\" }};\n"))
                .count(),
            1
        );
    }
}
