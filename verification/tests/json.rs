use codemode::json::{depth_within, serialized_within, Sink};
use codemode::text;
use serde_json::Value;
use std::io::Write;

fn json(text: &str) -> Value {
    serde_json::from_str(text).unwrap()
}

#[test]
fn serialized_size_is_exact() {
    for text in [
        "null",
        "true",
        "-1.5e300",
        "\"\"",
        "\"ä\\n\\u0001\"",
        "[]",
        "[1,[2,{\"a\":\"b\"}]]",
        "{\"b\":1,\"a\":{}}",
    ] {
        let value = json(text);
        let n = value.to_string().len();
        assert!(serialized_within(&value, n), "{text}");
        assert!(!serialized_within(&value, n - 1), "{text}");
    }
    assert!(serialized_within(&json("7"), usize::MAX));
    assert!(!serialized_within(&json("7"), 0));
}

#[test]
fn sink_refuses_the_piece_that_does_not_fit() {
    let mut sink = Sink::new(5);
    assert_eq!(sink.write(b"abc").unwrap(), 3);
    assert!(sink.write(b"def").is_err());
    assert_eq!(sink.write(b"de").unwrap(), 2);
    assert!(sink.write(b"f").is_err());
    assert!(sink.accept(0));
    assert!(sink.flush().is_ok());
}

#[test]
fn depth_is_that_of_arrays_and_objects() {
    assert!(depth_within(&json("7"), 0));
    assert!(depth_within(&json("\"x\""), 0));
    assert!(!depth_within(&json("[]"), 0));
    assert!(depth_within(&json("[]"), 1));
    assert!(!depth_within(&json("{}"), 0));
    assert!(depth_within(&json("[1,{},[]]"), 2));
    assert!(!depth_within(&json("[1,{\"a\":[]},[]]"), 2));
    assert!(depth_within(&json("[1,{\"a\":[]},[]]"), 3));
}

#[test]
fn text_helpers() {
    assert!(text::same("äb", "äb"));
    assert!(!text::same("a", "ab"));
    assert!(!text::same("a", "b"));
    assert!(text::contains("abcabd", "abd"));
    assert!(text::contains("abc", ""));
    assert!(!text::contains("abc", "abcd"));
    assert!(!text::contains("aab", "ba"));
    assert_eq!(text::len_of("ä€"), 5);
    assert_eq!(text::chars_of("ä€"), ['ä', '€']);
    let mut out = "n=".to_string();
    text::push_decimal(&mut out, 0);
    text::push_decimal(&mut out, 10);
    text::push_decimal(&mut out, u64::MAX);
    assert_eq!(out, "n=01018446744073709551615");
    let parts = vec!["a".to_string(), String::new(), "b".to_string()];
    assert_eq!(text::join(&parts, ", "), "a, , b");
    assert_eq!(text::join(&vec![], ", "), "");
    assert_eq!(text::cut("aä€", 2), "a");
    assert_eq!(text::cut("aä€", 3), "aä");
    assert_eq!(text::cut("aä€", 100), "aä€");
}

#[test]
fn compact_text_counts_every_escape() {
    for (value, bytes) in [
        (Value::String("\u{8}\t\n\u{c}\r\"\\".to_string()), 2 + 7 * 2),
        (Value::String("\u{0}\u{1f}".to_string()), 2 + 2 * 6),
        (Value::String("\u{7f}/ä☃".to_string()), 2 + 1 + 1 + 2 + 3),
        (json(r#"{"a":[null,true,false],"b\n":{}}"#), 32),
    ] {
        assert!(serialized_within(&value, bytes), "{value}");
        assert!(!serialized_within(&value, bytes - 1), "{value}");
    }
}
