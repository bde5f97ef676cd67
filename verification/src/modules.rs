//! The module generated for each server: one exported function per tool, each
//! forwarding to the bridge.

use serde_json::Value;
use vstd::prelude::*;

use crate::json::{self, Json};
use crate::text;
use crate::types::{self, ServerTools, ServerView, ToolInfo, ToolView};

verus! {

/// The JSON string literal of a text, which is a JavaScript string literal too.
pub open spec fn literal(text: Seq<char>) -> Seq<char> {
    json::quoted(text)
}

/// A text as a string literal.
pub fn json_lit(s: &str) -> (lit: String)
    ensures
        lit@ == literal(s@),
{
    match json::string_literal(s) {
        Some(lit) => lit,
        None => "\"\"".to_owned(),
    }
}

/// The first text in a list of values.
pub open spec fn first_text(items: Seq<Json>) -> Option<Seq<char>>
    decreases items.len(),
{
    if items.len() == 0 {
        None
    } else {
        match items[0] {
            Json::Text(t) => Some(t),
            _ => first_text(items.skip(1)),
        }
    }
}

/// The name shown for a schema type.
pub open spec fn shown_type(name: Seq<char>) -> Seq<char> {
    if name == "string"@ {
        "string"@
    } else if name == "number"@ || name == "integer"@ {
        "number"@
    } else if name == "boolean"@ {
        "boolean"@
    } else if name == "array"@ {
        "array"@
    } else if name == "object"@ {
        "object"@
    } else if name == "null"@ {
        "null"@
    } else {
        "any"@
    }
}

/// The type shown for a property: the schema's `type`, or the first text among
/// several.
pub open spec fn property_type(spec_json: Json) -> Seq<char> {
    match json::member_of(spec_json, "type"@) {
        Some(Json::Text(name)) => shown_type(name),
        Some(Json::Array(items)) => match first_text(items) {
            Some(name) => shown_type(name),
            None => "any"@,
        },
        _ => "any"@,
    }
}

fn show_type(name: &str) -> (shown: &'static str)
    ensures
        shown@ == shown_type(name@),
{
    if text::same(name, "string") {
        "string"
    } else if text::same(name, "number") || text::same(name, "integer") {
        "number"
    } else if text::same(name, "boolean") {
        "boolean"
    } else if text::same(name, "array") {
        "array"
    } else if text::same(name, "object") {
        "object"
    } else if text::same(name, "null") {
        "null"
    } else {
        "any"
    }
}

/// Maps a property schema to a rough type name for the signature.
pub fn json_type_name(spec_value: &Value) -> (name: &'static str)
    ensures
        name@ == property_type(json::json_view(*spec_value)),
{
    let found: &Value = match json::get_member(spec_value, "type") {
        Some(found) => found,
        None => {
            return "any";
        },
    };
    if let Some(name) = json::as_str(found) {
        return show_type(name);
    }
    let list: &Vec<Value> = match json::as_array(found) {
        Some(list) => list,
        None => {
            return "any";
        },
    };
    let ghost items = json::json_views(list@);
    let mut i: usize = 0;
    assert(items.skip(0) =~= items);
    while i < list.len()
        invariant
            i <= list@.len(),
            items == json::json_views(list@),
            json::member_of(json::json_view(*spec_value), "type"@) == Some(Json::Array(items)),
            first_text(items) == first_text(items.skip(i as int)),
        decreases list@.len() - i,
    {
        assert(items.skip(i as int)[0] == json::json_view(list@[i as int]));
        assert(items.skip(i as int).skip(1) =~= items.skip(i + 1));
        if let Some(name) = json::as_str(&list[i]) {
            return show_type(name);
        }
        i = i + 1;
    }
    assert(items.skip(i as int).len() == 0);
    "any"
}

/// The schema's `required` list names this property.
pub open spec fn is_required(schema: Json, name: Seq<char>) -> bool {
    match json::member_of(schema, "required"@) {
        Some(Json::Array(items)) => items.contains(Json::Text(name)),
        _ => false,
    }
}

fn requires_property(schema: &Value, name: &str) -> (required: bool)
    ensures
        required == is_required(json::json_view(*schema), name@),
{
    let found: &Value = match json::get_member(schema, "required") {
        Some(found) => found,
        None => {
            return false;
        },
    };
    let list: &Vec<Value> = match json::as_array(found) {
        Some(list) => list,
        None => {
            return false;
        },
    };
    let ghost items = json::json_views(list@);
    let mut i: usize = 0;
    while i < list.len()
        invariant
            i <= list@.len(),
            items == json::json_views(list@),
            json::member_of(json::json_view(*schema), "required"@) == Some(Json::Array(items)),
            forall|j: int| 0 <= j < i ==> #[trigger] items[j] != Json::Text(name@),
        decreases list@.len() - i,
    {
        assert(items[i as int] == json::json_view(list@[i as int]));
        if let Some(item) = json::as_str(&list[i]) {
            if text::same(item, name) {
                assert(items.contains(Json::Text(name@)));
                return true;
            }
        }
        i = i + 1;
    }
    false
}

/// One field of the argument object: its name, a mark where it is optional, its
/// type.
pub open spec fn field_text(schema: Json, property: (Seq<char>, Json)) -> Seq<char> {
    property.0 + (if is_required(schema, property.0) {
        ""@
    } else {
        "?"@
    }) + ": "@ + property_type(property.1)
}

/// The fields of the argument object.
pub open spec fn field_texts(schema: Json, properties: Seq<(Seq<char>, Json)>) -> Seq<Seq<char>> {
    properties.map_values(|property: (Seq<char>, Json)| field_text(schema, property))
}

/// The signature of the argument object, where the schema has properties.
pub open spec fn signature(schema: Json) -> Option<Seq<char>> {
    match json::member_of(schema, "properties"@) {
        Some(Json::Object(properties)) => if properties.len() == 0 {
            None
        } else {
            Some("{ "@ + text::joined(field_texts(schema, properties), ", "@) + " }"@)
        },
        _ => None,
    }
}

/// A compact `{ field: type, optional?: type }` view of a tool's single argument
/// object, derived from the schema's top-level `properties`/`required`. `None` when
/// there are no properties to describe.
pub fn arg_signature(schema: &Value) -> (sig: Option<String>)
    ensures
        text::optional(sig) == signature(json::json_view(*schema)),
{
    let found: &Value = match json::get_member(schema, "properties") {
        Some(found) => found,
        None => {
            return None;
        },
    };
    let props: Vec<(&String, &Value)> = match json::as_object(found) {
        Some(map) => json::members(map),
        None => {
            return None;
        },
    };
    if props.len() == 0 {
        return None;
    }
    let ghost view = json::json_view(*schema);
    let ghost properties = json::json_view(*found)->Object_0;
    let mut fields: Vec<String> = Vec::new();
    let mut i: usize = 0;
    while i < props.len()
        invariant
            i <= props@.len(),
            props@.len() == properties.len(),
            view == json::json_view(*schema),
            forall|j: int|
                0 <= j < props@.len() ==> (#[trigger] props@[j]).0@ == properties[j].0
                    && json::json_view(*props@[j].1) == properties[j].1,
            fields@.len() == i,
            forall|j: int|
                0 <= j < i ==> (#[trigger] fields@[j])@ == field_text(view, properties[j]),
        decreases props@.len() - i,
    {
        let mut field: String = String::new();
        let name: &str = props[i].0.as_str();
        assert(props@[i as int].0@ == properties[i as int].0);
        field.push_str(name);
        if !requires_property(schema, name) {
            field.push_str("?");
        }
        field.push_str(": ");
        field.push_str(json_type_name(props[i].1));
        proof {
            if is_required(view, name@) {
                reveal_strlit("");
                assert(name@ + ""@ =~= name@);
            }
            assert(field@ =~= field_text(view, properties[i as int]));
        }
        fields.push(field);
        i = i + 1;
    }
    let mut out: String = String::new();
    out.push_str("{ ");
    let list: String = text::join(&fields, ", ");
    out.push_str(list.as_str());
    out.push_str(" }");
    assert(text::texts(fields@) =~= field_texts(view, properties));
    assert(out@ =~= "{ "@ + text::joined(field_texts(view, properties), ", "@) + " }"@);
    Some(out)
}

/// A text with every `*/` in it replaced by `* /`.
pub open spec fn sanitized(text: Seq<char>) -> Seq<char>
    decreases text.len(),
{
    if text.len() < 2 {
        text
    } else if text[0] == '*' && text[1] == '/' {
        seq!['*', ' ', '/'] + sanitized(text.skip(2))
    } else {
        seq![text[0]] + sanitized(text.skip(1))
    }
}

/// Replaces every `*/` in `body`.
fn sanitize(body: &str) -> (out: String)
    ensures
        out@ == sanitized(body@),
{
    let chars: Vec<char> = text::chars_of(body);
    let mut out: String = String::new();
    let mut i: usize = 0;
    assert(chars@.skip(0) =~= chars@);
    assert(out@ + sanitized(chars@) =~= sanitized(chars@));
    while i < chars.len()
        invariant
            chars@ == body@,
            i <= chars.len(),
            out@ + sanitized(chars@.skip(i as int)) == sanitized(body@),
        decreases chars.len() - i,
    {
        let ghost rest = chars@.skip(i as int);
        let ghost done = out@;
        if chars.len() - i >= 2 && chars[i] == '*' && chars[i + 1] == '/' {
            out.push('*');
            out.push(' ');
            out.push('/');
            i = i + 2;
            assert(rest.skip(2) =~= chars@.skip(i as int));
            assert(out@ + sanitized(rest.skip(2)) =~= done + (seq!['*', ' ', '/'] + sanitized(
                rest.skip(2),
            )));
        } else {
            out.push(chars[i]);
            i = i + 1;
            assert(rest.skip(1) =~= chars@.skip(i as int));
            assert(rest.len() >= 2 ==> out@ + sanitized(rest.skip(1)) =~= done + (seq![rest[0]]
                + sanitized(rest.skip(1))));
            proof {
                if rest.len() < 2 {
                    assert(rest =~= seq![rest[0]]);
                    assert(chars@.skip(i as int) =~= Seq::<char>::empty());
                    assert(out@ + Seq::<char>::empty() =~= done + rest);
                }
            }
        }
    }
    assert(chars@.skip(i as int) =~= Seq::<char>::empty());
    assert(out@ + Seq::<char>::empty() =~= out@);
    out
}

/// The position of the first line break at or after `from`; the text's length where
/// there is none.
pub open spec fn line_end(text: Seq<char>, from: int) -> int
    decreases text.len() - from,
{
    if from >= text.len() {
        text.len() as int
    } else if text[from] == '\n' {
        from
    } else {
        line_end(text, from + 1)
    }
}

/// A line without the carriage return before its line break.
pub open spec fn without_return(line: Seq<char>) -> Seq<char> {
    if line.len() > 0 && line.last() == '\r' {
        line.drop_last()
    } else {
        line
    }
}

/// The lines of `text` from `from` on, without their line breaks. A break at the
/// very end starts no further line.
pub open spec fn lines_from(text: Seq<char>, from: int) -> Seq<Seq<char>>
    decreases text.len() - from,
{
    if from < 0 || from >= text.len() {
        Seq::empty()
    } else {
        let end = line_end(text, from);
        if end >= text.len() || end < from {
            seq![text.subrange(from, text.len() as int)]
        } else {
            seq![without_return(text.subrange(from, end))] + lines_from(text, end + 1)
        }
    }
}

/// The lines of a comment, each behind its margin.
pub open spec fn comment_lines(lines: Seq<Seq<char>>) -> Seq<char>
    decreases lines.len(),
{
    if lines.len() == 0 {
        Seq::empty()
    } else {
        (" * "@ + lines[0] + "\n"@) + comment_lines(lines.skip(1))
    }
}

/// A comment with the lines of `body`, which is sanitized first.
pub open spec fn comment(body: Seq<char>) -> Seq<char> {
    "/**\n"@ + comment_lines(lines_from(sanitized(body), 0)) + " */\n"@
}

/// What the comment of a tool says: its description and its argument's signature.
pub open spec fn doc_body(tool: ToolView) -> Seq<char> {
    let said = match tool.description {
        Some(text) => text,
        None => Seq::empty(),
    };
    match signature(tool.input_schema) {
        Some(sig) => said + (if said.len() > 0 {
            "\n"@
        } else {
            Seq::empty()
        }) + "@param args "@ + sig,
        None => said,
    }
}

/// The comment above a tool's function; nothing where there is nothing to say.
pub open spec fn doc_text(tool: ToolView) -> Seq<char> {
    if doc_body(tool).len() == 0 {
        Seq::empty()
    } else {
        comment(doc_body(tool))
    }
}

proof fn lemma_comment_lines_push(lines: Seq<Seq<char>>, line: Seq<char>)
    ensures
        comment_lines(lines.push(line)) == comment_lines(lines) + (" * "@ + line + "\n"@),
    decreases lines.len(),
{
    if lines.len() == 0 {
        assert(lines.push(line).skip(1) =~= Seq::<Seq<char>>::empty());
        assert(comment_lines(lines.push(line).skip(1)) =~= Seq::<char>::empty());
        assert(comment_lines(lines.push(line)) =~= comment_lines(lines) + (" * "@ + line + "\n"@));
    } else {
        lemma_comment_lines_push(lines.skip(1), line);
        assert(lines.push(line).skip(1) =~= lines.skip(1).push(line));
        assert(comment_lines(lines.push(line)) =~= comment_lines(lines) + (" * "@ + line + "\n"@));
    }
}

/// Writes the lines of `body` as a comment.
fn push_comment_lines(out: &mut String, body: &str)
    ensures
        final(out)@ == old(out)@ + comment_lines(lines_from(body@, 0)),
{
    let chars: Vec<char> = text::chars_of(body);
    let ghost start = out@;
    let ghost mut done: Seq<Seq<char>> = Seq::empty();
    let mut from: usize = 0;
    assert(done + lines_from(body@, 0) =~= lines_from(body@, 0));
    assert(out@ =~= start + comment_lines(done));
    while from < chars.len()
        invariant
            chars@ == body@,
            from <= chars.len(),
            out@ == start + comment_lines(done),
            done + lines_from(body@, from as int) == lines_from(body@, 0),
        decreases chars.len() - from,
    {
        let mut end: usize = from;
        while end < chars.len() && chars[end] != '\n'
            invariant
                chars@ == body@,
                from <= end <= chars.len(),
                line_end(body@, from as int) == line_end(body@, end as int),
            decreases chars.len() - end,
        {
            end = end + 1;
        }
        let mut stop: usize = end;
        if end < chars.len() && end > from && chars[end - 1] == '\r' {
            stop = end - 1;
        }
        let ghost before = out@;
        out.push_str(" * ");
        let ghost margin = out@;
        let mut i: usize = from;
        while i < stop
            invariant
                chars@ == body@,
                from <= i <= stop <= chars.len(),
                out@ == margin + body@.subrange(from as int, i as int),
            decreases stop - i,
        {
            out.push(chars[i]);
            assert(body@.subrange(from as int, i + 1) =~= body@.subrange(from as int, i as int).push(
                body@[i as int],
            ));
            i = i + 1;
        }
        assert(from == stop ==> body@.subrange(from as int, stop as int) =~= Seq::empty());
        out.push('\n');
        proof {
            let line = body@.subrange(from as int, stop as int);
            let whole = body@.subrange(from as int, end as int);
            reveal_strlit("\n");
            if end < chars.len() {
                assert(whole.len() > 0 ==> whole.last() == body@[end - 1]);
                assert(line =~= without_return(whole));
                assert(lines_from(body@, from as int) =~= seq![line] + lines_from(body@, end + 1));
            } else {
                assert(lines_from(body@, from as int) =~= seq![line]);
            }
            assert(out@ =~= before + (" * "@ + line + "\n"@));
            lemma_comment_lines_push(done, line);
            assert(out@ =~= start + comment_lines(done.push(line)));
            assert(done.push(line) + lines_from(body@, end + 1) =~= done + lines_from(
                body@,
                from as int,
            ));
            done = done.push(line);
        }
        if end == chars.len() {
            from = end;
        } else {
            from = end + 1;
        }
    }
    assert(done =~= lines_from(body@, 0));
}

/// The JSDoc block for one tool: its description plus, when the schema has
/// properties, a `@param` line describing the single argument object's shape
/// (field names, rough types, optionality). It documents the generated wrapper and
/// is empty when there's nothing to say. The whole body is `*/`-sanitized, so a
/// hostile tool name, description, or field name can't break out of the comment.
pub fn jsdoc(tool: &ToolInfo) -> (doc: String)
    ensures
        doc@ == doc_text(tool@),
{
    let mut body: String = String::new();
    let mut blank: bool = true;
    if let Some(desc) = &tool.description {
        body.push_str(desc.as_str());
        blank = text::len_of(desc.as_str()) == 0;
        proof {
            text::lemma_byte_len_zero(desc@);
            assert(body@ =~= desc@);
        }
    }
    let ghost said = body@;
    if let Some(sig) = arg_signature(&tool.input_schema) {
        if !blank {
            body.push_str("\n");
        }
        body.push_str("@param args ");
        body.push_str(sig.as_str());
        blank = false;
        proof {
            reveal_strlit("@param args ");
            assert(said.len() == 0 ==> said =~= Seq::<char>::empty());
            assert(body@ =~= doc_body(tool@));
            assert(body@.len() > 0);
        }
    }
    assert(body@ =~= doc_body(tool@));
    if blank {
        return String::new();
    }
    let body: String = sanitize(body.as_str());
    let mut out: String = String::new();
    out.push_str("/**\n");
    push_comment_lines(&mut out, body.as_str());
    out.push_str(" */\n");
    assert(out@ =~= comment(doc_body(tool@)));
    out
}

/// A comment would end at position `i` of the text.
pub open spec fn closes_at(text: Seq<char>, i: int) -> bool {
    0 <= i && i + 1 < text.len() && text[i] == '*' && text[i + 1] == '/'
}

/// No comment ends anywhere in the text.
pub open spec fn closes_nowhere(text: Seq<char>) -> bool {
    forall|i: int| !#[trigger] closes_at(text, i)
}

proof fn lemma_closes_nowhere_concat(a: Seq<char>, b: Seq<char>)
    requires
        closes_nowhere(a),
        closes_nowhere(b),
        a.len() == 0 || b.len() == 0 || a.last() != '*' || b[0] != '/',
    ensures
        closes_nowhere(a + b),
{
    assert forall|i: int| !#[trigger] closes_at(a + b, i) by {
        assert(!closes_at(a, i));
        assert(!closes_at(b, i - a.len()));
    }
}

proof fn lemma_sanitized_closes_nowhere(text: Seq<char>)
    ensures
        closes_nowhere(sanitized(text)),
        sanitized(text).len() > 0 <==> text.len() > 0,
        text.len() > 0 ==> sanitized(text)[0] == text[0],
    decreases text.len(),
{
    if text.len() < 2 {
    } else if text[0] == '*' && text[1] == '/' {
        lemma_sanitized_closes_nowhere(text.skip(2));
        lemma_closes_nowhere_concat(seq!['*', ' ', '/'], sanitized(text.skip(2)));
    } else {
        lemma_sanitized_closes_nowhere(text.skip(1));
        lemma_closes_nowhere_concat(seq![text[0]], sanitized(text.skip(1)));
    }
}

proof fn lemma_lines_close_nowhere(text: Seq<char>, from: int)
    requires
        closes_nowhere(text),
    ensures
        forall|k: int|
            0 <= k < lines_from(text, from).len() ==> closes_nowhere(
                #[trigger] lines_from(text, from)[k],
            ),
    decreases text.len() - from,
{
    if 0 <= from < text.len() {
        let end = line_end(text, from);
        assert forall|a: int, b: int| 0 <= a <= b <= text.len() implies closes_nowhere(
            #[trigger] text.subrange(a, b),
        ) by {
            assert forall|i: int| !#[trigger] closes_at(text.subrange(a, b), i) by {
                assert(!closes_at(text, a + i));
            }
        }
        if from <= end < text.len() {
            lemma_lines_close_nowhere(text, end + 1);
            let whole = text.subrange(from, end);
            assert(whole.len() > 0 ==> whole.drop_last() =~= text.subrange(from, end - 1));
            let rest = lines_from(text, end + 1);
            assert forall|k: int| 0 <= k < lines_from(text, from).len() implies closes_nowhere(
                #[trigger] lines_from(text, from)[k],
            ) by {
                if k > 0 {
                    assert(lines_from(text, from)[k] == rest[k - 1]);
                }
            }
        }
    }
}

proof fn lemma_comment_lines_close_nowhere(lines: Seq<Seq<char>>)
    requires
        forall|k: int| 0 <= k < lines.len() ==> closes_nowhere(#[trigger] lines[k]),
    ensures
        closes_nowhere(comment_lines(lines)),
        comment_lines(lines).len() > 0 ==> comment_lines(lines)[0] == ' ' && comment_lines(
            lines,
        ).last() == '\n',
    decreases lines.len(),
{
    reveal_strlit(" * ");
    reveal_strlit("\n");
    if lines.len() > 0 {
        lemma_comment_lines_close_nowhere(lines.skip(1));
        lemma_closes_nowhere_concat(" * "@, lines[0]);
        lemma_closes_nowhere_concat(" * "@ + lines[0], "\n"@);
        lemma_closes_nowhere_concat(" * "@ + lines[0] + "\n"@, comment_lines(lines.skip(1)));
    }
}

/// Nothing that a tool says of itself ends its comment early: the comment above a
/// tool's function opens with `/**` and holds `*/` at its own end and nowhere
/// before.
pub proof fn law_comment_holds_everything_said(tool: ToolView)
    requires
        doc_text(tool).len() > 0,
    ensures
        text::occurs_at(doc_text(tool), "/**"@, 0),
        forall|i: int| #[trigger]
            closes_at(doc_text(tool), i) <==> i == doc_text(tool).len() - 3,
{
    reveal_strlit("/**\n");
    reveal_strlit("/**");
    reveal_strlit(" */\n");
    let body = sanitized(doc_body(tool));
    let inner = comment_lines(lines_from(body, 0));
    lemma_sanitized_closes_nowhere(doc_body(tool));
    lemma_lines_close_nowhere(body, 0);
    lemma_comment_lines_close_nowhere(lines_from(body, 0));
    lemma_closes_nowhere_concat("/**\n"@, inner);
    let head = "/**\n"@ + inner;
    assert(doc_text(tool).subrange(0, 3) =~= "/**"@);
    assert forall|i: int| #[trigger]
        closes_at(doc_text(tool), i) <==> i == doc_text(tool).len() - 3 by {
        assert(!closes_at(head, i));
        assert(head.last() == '\n');
    }
}

/// The value of a hexadecimal digit in lower case.
pub open spec fn hex_value(c: char) -> int {
    if '0' <= c && c <= '9' {
        c as int - '0' as int
    } else {
        c as int - 'a' as int + 10
    }
}

/// The code of the character that a backslash and `c` stand for, where no digits follow.
pub open spec fn escape_code(c: char) -> int {
    if c == 'b' {
        8
    } else if c == 't' {
        9
    } else if c == 'n' {
        10
    } else if c == 'f' {
        12
    } else if c == 'r' {
        13
    } else {
        c as int
    }
}

/// A string literal of JavaScript in double quotes, read on from position `i` inside it:
/// the codes of its characters, and where its closing quote stands. Nothing, where the
/// line or the source ends first.
pub open spec fn read_literal(source: Seq<char>, i: int) -> Option<(Seq<int>, int)>
    decreases source.len() - i,
{
    if i < 0 || i >= source.len() || source[i] == '\n' || source[i] == '\r' {
        None
    } else if source[i] == '"' {
        Some((Seq::empty(), i))
    } else {
        let (code, width) = if source[i] != '\\' || i + 1 >= source.len() {
            (source[i] as int, 1int)
        } else if source[i + 1] == 'u' && i + 5 < source.len() {
            (
                hex_value(source[i + 2]) * 4096 + hex_value(source[i + 3]) * 256 + hex_value(
                    source[i + 4],
                ) * 16 + hex_value(source[i + 5]),
                6int,
            )
        } else {
            (escape_code(source[i + 1]), 2int)
        };
        match read_literal(source, i + width) {
            Some((rest, end)) => Some((seq![code] + rest, end)),
            None => None,
        }
    }
}

/// The codes of the characters of a text.
pub open spec fn codes(text: Seq<char>) -> Seq<int> {
    text.map_values(|c: char| c as int)
}

proof fn lemma_hex_code(c: char)
    requires
        (c as int) < 0x20,
    ensures
        hex_value(json::hex_digit(c as int / 16)) == c as int / 16,
        hex_value(json::hex_digit(c as int % 16)) == c as int % 16,
{
    assert(c as int / 16 == 0 || c as int / 16 == 1);
}

proof fn lemma_read_escaped(before: Seq<char>, text: Seq<char>, after: Seq<char>)
    ensures
        read_literal(before + json::escaped(text) + seq!['"'] + after, before.len() as int) == Some(
            (codes(text), (before.len() + json::escaped(text).len()) as int),
        ),
    decreases text.len(),
{
    let source = before + json::escaped(text) + seq!['"'] + after;
    let i = before.len() as int;
    if text.len() == 0 {
        assert(source[i] == '"');
        assert(codes(text) =~= Seq::empty());
    } else {
        let piece = json::escaped_char(text[0]);
        let tail = json::escaped(text.skip(1));
        lemma_read_escaped(before + piece, text.skip(1), after);
        assert((before + piece) + tail + seq!['"'] + after =~= source);
        assert(forall|k: int| 0 <= k < piece.len() ==> source[i + k] == piece[k]);
        assert(source[i] == piece[0]);
        if piece.len() > 1 {
            assert(source[i + 1] == piece[1]);
        }
        if piece.len() == 6 {
            lemma_hex_code(text[0]);
            assert(source[i + 2] == piece[2]);
            assert(source[i + 3] == piece[3]);
            assert(source[i + 4] == piece[4]);
            assert(source[i + 5] == piece[5]);
        }
        assert(codes(text) =~= seq![text[0] as int] + codes(text.skip(1)));
    }
}

/// No name leaves the literal that it is written as: whatever follows, a reader of the
/// source takes the literal to end at its own closing quote, and to hold the name itself,
/// character by character.
pub proof fn law_names_stay_in_their_literals(name: Seq<char>, after: Seq<char>)
    ensures
        literal(name)[0] == '"',
        read_literal(literal(name) + after, 1) == Some((codes(name), literal(name).len() - 1)),
{
    lemma_read_escaped(seq!['"'], name, after);
    assert(literal(name) + after =~= seq!['"'] + json::escaped(name) + seq!['"'] + after);
}

/// Different names have different literals.
pub proof fn law_literals_tell_names_apart(a: Seq<char>, b: Seq<char>)
    ensures
        literal(a) == literal(b) ==> a == b,
{
    if literal(a) == literal(b) {
        law_names_stay_in_their_literals(a, Seq::empty());
        law_names_stay_in_their_literals(b, Seq::empty());
        assert(codes(a) == codes(b));
        assert forall|i: int| 0 <= i < a.len() implies a[i] == b[i] by {
            assert(codes(a)[i] == a[i] as int);
            assert(codes(b)[i] == b[i] as int);
        }
        assert(codes(a).len() == a.len());
        assert(codes(b).len() == b.len());
        assert(a =~= b);
    }
}

/// The function and the export generated for the `i`-th tool of a server.
pub open spec fn wrapper_text(server: Seq<char>, tool: Seq<char>, i: nat) -> Seq<char> {
    "function __t"@ + text::decimal(i) + "(args) { return __c("@ + literal(server) + ", "@
        + literal(tool) + ", JSON.stringify(args === undefined ? {} : args)); }\n"@ + "export { __t"@
        + text::decimal(i) + " as "@ + literal(tool) + " };\n"@
}

/// The first `n` tools of a server's module.
pub open spec fn tools_text(server: ServerView, n: nat) -> Seq<char>
    decreases n,
{
    if n == 0 {
        Seq::empty()
    } else {
        let i = (n - 1) as nat;
        tools_text(server, i) + doc_text(server.tools[i as int]) + wrapper_text(
            server.name,
            server.tools[i as int].name,
            i,
        )
    }
}

/// The module generated for a server.
pub open spec fn module_text(server: ServerView) -> Seq<char> {
    "const __c = globalThis.__codemodeCall;\n"@ + tools_text(server, server.tools.len())
}

fn push_wrapper(out: &mut String, server_lit: &str, tool: &str, i: usize, Ghost(server): Ghost<
    Seq<char>,
>)
    requires
        server_lit@ == literal(server),
    ensures
        final(out)@ == old(out)@ + wrapper_text(server, tool@, i as nat),
{
    let ghost start = out@;
    let tool_lit: String = json_lit(tool);
    // Define under an internal identifier, then export under the exact tool name via
    // a string-named export. This works for any name: a normal name like `echo` is
    // still reached as `ns.echo`, an odd one as `ns["a-b"]`, and sidesteps
    // identifier and reserved-word edge cases entirely.
    out.push_str("function __t");
    text::push_decimal(out, i as u64);
    out.push_str("(args) { return __c(");
    out.push_str(server_lit);
    out.push_str(", ");
    out.push_str(tool_lit.as_str());
    out.push_str(", JSON.stringify(args === undefined ? {} : args)); }\n");
    out.push_str("export { __t");
    text::push_decimal(out, i as u64);
    out.push_str(" as ");
    out.push_str(tool_lit.as_str());
    out.push_str(" };\n");
    assert(out@ =~= start + wrapper_text(server, tool@, i as nat));
}

/// Generates the module for one server: one exported function per tool, each
/// forwarding to the bridge. Arguments are JSON-stringified there and parsed here,
/// so prototype pollution can't corrupt what is forwarded.
pub fn module_source(server: &ServerTools) -> (source: String)
    ensures
        source@ == module_text(server@),
{
    let mut out: String = String::new();
    out.push_str("const __c = globalThis.__codemodeCall;\n");
    let server_lit: String = json_lit(server.name.as_str());
    let ghost view = server@;
    let ghost head = "const __c = globalThis.__codemodeCall;\n"@;
    let mut i: usize = 0;
    assert(out@ =~= head + tools_text(view, 0));
    while i < server.tools.len()
        invariant
            i <= server.tools@.len(),
            view == server@,
            server_lit@ == literal(view.name),
            out@ == head + tools_text(view, i as nat),
        decreases server.tools@.len() - i,
    {
        let tool: &ToolInfo = &server.tools[i];
        assert(view.tools[i as int] == tool@);
        let doc: String = jsdoc(tool);
        out.push_str(doc.as_str());
        push_wrapper(&mut out, server_lit.as_str(), tool.name.as_str(), i, Ghost(view.name));
        assert(out@ =~= head + tools_text(view, (i + 1) as nat));
        i = i + 1;
    }
    out
}

proof fn lemma_occurs_in_concat(part: Seq<char>, head: Seq<char>, body: Seq<char>, tail: Seq<char>)
    requires
        text::occurs(body, part),
    ensures
        text::occurs(head + body + tail, part),
{
    let at = choose|at: int| text::occurs_at(body, part, at);
    let whole = head + body + tail;
    assert(whole.subrange(head.len() + at, head.len() + at + part.len()) =~= body.subrange(
        at,
        at + part.len(),
    ));
    assert(text::occurs_at(whole, part, head.len() + at));
}

proof fn lemma_tool_is_wrapped(server: ServerView, i: int, n: nat)
    requires
        0 <= i < n <= server.tools.len(),
    ensures
        text::occurs(
            tools_text(server, n),
            wrapper_text(server.name, server.tools[i].name, i as nat),
        ),
    decreases n,
{
    let part = wrapper_text(server.name, server.tools[i].name, i as nat);
    let before = tools_text(server, (n - 1) as nat);
    let doc = doc_text(server.tools[n - 1]);
    if i == n - 1 {
        assert(part.subrange(0, part.len() as int) =~= part);
        assert(text::occurs_at(part, part, 0));
        lemma_occurs_in_concat(part, before + doc, part, Seq::empty());
        assert(before + doc + part + Seq::empty() =~= tools_text(server, n));
    } else {
        lemma_tool_is_wrapped(server, i, (n - 1) as nat);
        let last = wrapper_text(server.name, server.tools[n - 1].name, (n - 1) as nat);
        lemma_occurs_in_concat(part, Seq::empty(), before, doc + last);
        assert(Seq::empty() + before + (doc + last) =~= tools_text(server, n));
    }
}

/// Every tool of a server is there in its module: a function that calls it, exported under
/// its exact name.
pub proof fn law_every_tool_is_exported(server: ServerView, i: int)
    requires
        0 <= i < server.tools.len(),
    ensures
        text::occurs(
            module_text(server),
            wrapper_text(server.name, server.tools[i].name, i as nat),
        ),
{
    let head = "const __c = globalThis.__codemodeCall;\n"@;
    let body = tools_text(server, server.tools.len());
    lemma_tool_is_wrapped(server, i, server.tools.len());
    lemma_occurs_in_concat(
        wrapper_text(server.name, server.tools[i].name, i as nat),
        head,
        body,
        Seq::empty(),
    );
    assert(head + body + Seq::empty() =~= module_text(server));
}

/// Two functions of a module never share an internal name.
pub proof fn law_internal_names_are_distinct(i: nat, j: nat)
    ensures
        "__t"@ + text::decimal(i) == "__t"@ + text::decimal(j) ==> i == j,
{
    let head = "__t"@;
    if head + text::decimal(i) == head + text::decimal(j) {
        assert((head + text::decimal(i)).skip(head.len() as int) =~= text::decimal(i));
        assert((head + text::decimal(j)).skip(head.len() as int) =~= text::decimal(j));
        text::lemma_decimal_injective(i, j);
    }
}

/// The import path of a server's module.
pub open spec fn import_path(server: Seq<char>) -> Seq<char> {
    "./servers/"@ + server
}

/// The servers' names as a list for a reader.
pub open spec fn available_text(names: Seq<Seq<char>>) -> Seq<char> {
    if names.len() == 0 {
        "(none)"@
    } else {
        text::joined(names, ", "@)
    }
}

/// Names the servers for a reader.
pub fn available(names: &Vec<String>) -> (list: String)
    ensures
        list@ == available_text(text::texts(names@)),
{
    if names.len() == 0 {
        "(none)".to_owned()
    } else {
        text::join(names, ", ")
    }
}

/// The message for an import that names no module: it names the available servers
/// and shows the exact import shape, so a wrong name or a missing `./servers/`
/// prefix self-corrects.
pub open spec fn not_found_text(specifier: Seq<char>, names: Seq<Seq<char>>) -> Seq<char> {
    "module not found: "@ + specifier
        + ". Import a server as `import * as x from './servers/<name>'`; available servers: "@
        + available_text(names)
}

/// The modules that an execution can import: `./servers/<name>` for each server,
/// and nothing else.
#[derive(Debug)]
pub struct ServerModules {
    names: Vec<String>,
    sources: Vec<String>,
}

/// The last of the first `n` names whose module has this path.
pub open spec fn module_index(names: Seq<Seq<char>>, n: nat, specifier: Seq<char>) -> Option<int>
    decreases n,
{
    if n == 0 {
        None
    } else if import_path(names[n - 1]) == specifier {
        Some(n - 1)
    } else {
        module_index(names, (n - 1) as nat, specifier)
    }
}

impl ServerModules {
    /// The names of the servers.
    pub closed spec fn names(self) -> Seq<Seq<char>> {
        text::texts(self.names@)
    }

    /// The module of each server.
    pub closed spec fn sources(self) -> Seq<Seq<char>> {
        text::texts(self.sources@)
    }

    #[verifier::type_invariant]
    spec fn paired(self) -> bool {
        self.names@.len() == self.sources@.len()
    }

    /// Generates the module of every server.
    pub fn new(servers: &Vec<ServerTools>) -> (modules: Self)
        ensures
            modules.names() == types::server_views(servers@).map_values(|s: ServerView| s.name),
            modules.sources() == types::server_views(servers@).map_values(|s: ServerView| module_text(s)),
    {
        let mut names: Vec<String> = Vec::new();
        let mut sources: Vec<String> = Vec::new();
        let mut i: usize = 0;
        while i < servers.len()
            invariant
                i <= servers@.len(),
                names@.len() == i,
                sources@.len() == i,
                forall|j: int| 0 <= j < i ==> (#[trigger] names@[j])@ == servers@[j]@.name,
                forall|j: int|
                    0 <= j < i ==> (#[trigger] sources@[j])@ == module_text(servers@[j]@),
            decreases servers@.len() - i,
        {
            names.push(servers[i].name.clone());
            sources.push(module_source(&servers[i]));
            i = i + 1;
        }
        ServerModules { names, sources }
    }

    /// Resolves `./servers/<name>` to that server's module (the last one, where two
    /// share a name); refuses everything else.
    pub fn resolve(&self, specifier: &str) -> (source: Result<&String, String>)
        ensures
            match module_index(self.names(), self.names().len(), specifier@) {
                Some(i) => source is Ok && source->Ok_0@ == self.sources()[i],
                None => source is Err && source->Err_0@ == not_found_text(
                    specifier@,
                    self.names(),
                ),
            },
    {
        proof {
            use_type_invariant(self);
        }
        let ghost names = self.names();
        let mut n: usize = self.names.len();
        while n > 0
            invariant
                names == self.names(),
                n <= self.names@.len(),
                self.names@.len() == self.sources@.len(),
                module_index(names, names.len(), specifier@) == module_index(
                    names,
                    n as nat,
                    specifier@,
                ),
            decreases n,
        {
            let mut path: String = String::new();
            path.push_str("./servers/");
            path.push_str(self.names[n - 1].as_str());
            assert(path@ =~= import_path(names[n - 1]));
            if text::same(path.as_str(), specifier) {
                return Ok(&self.sources[n - 1]);
            }
            n = n - 1;
        }
        let mut message: String = String::new();
        message.push_str("module not found: ");
        message.push_str(specifier);
        message.push_str(
            ". Import a server as `import * as x from './servers/<name>'`; available servers: ",
        );
        let list: String = available(&self.names);
        message.push_str(list.as_str());
        assert(message@ =~= not_found_text(specifier@, names));
        Err(message)
    }
}

proof fn lemma_module_index(names: Seq<Seq<char>>, n: nat, specifier: Seq<char>)
    requires
        n <= names.len(),
    ensures
        match module_index(names, n, specifier) {
            Some(i) => 0 <= i < n && "./servers/"@ + names[i] == specifier && forall|j: int|
                i < j < n ==> "./servers/"@ + #[trigger] names[j] != specifier,
            None => forall|j: int|
                0 <= j < n ==> "./servers/"@ + #[trigger] names[j] != specifier,
        },
    decreases n,
{
    if n > 0 && "./servers/"@ + names[n - 1] != specifier {
        lemma_module_index(names, (n - 1) as nat, specifier);
    }
}

/// An import reaches a server exactly where its specifier is that server's own path, to
/// the character: what it reaches is a server of that name, the last one where several
/// share it, and any other specifier is refused.
pub proof fn law_imports_reach_the_server_they_name(names: Seq<Seq<char>>, specifier: Seq<char>)
    ensures
        match module_index(names, names.len(), specifier) {
            Some(i) => 0 <= i < names.len() && "./servers/"@ + names[i] == specifier && forall|
                j: int,
            |
                i < j < names.len() ==> "./servers/"@ + #[trigger] names[j] != specifier,
            None => forall|j: int|
                0 <= j < names.len() ==> "./servers/"@ + #[trigger] names[j] != specifier,
        },
{
    lemma_module_index(names, names.len(), specifier);
}

/// Where no two servers share a name, importing each one's path reaches its own module.
pub proof fn law_every_server_can_be_imported(names: Seq<Seq<char>>, i: int)
    requires
        0 <= i < names.len(),
        forall|a: int, b: int|
            0 <= a < b < names.len() ==> #[trigger] names[a] != #[trigger] names[b],
    ensures
        module_index(names, names.len(), "./servers/"@ + names[i]) == Some(i),
{
    let head = "./servers/"@;
    law_imports_reach_the_server_they_name(names, head + names[i]);
    let found = module_index(names, names.len(), head + names[i]);
    if found is Some {
        let j = found->0;
        assert((head + names[j]).skip(head.len() as int) =~= names[j]);
        assert((head + names[i]).skip(head.len() as int) =~= names[i]);
    }
}

/// An import that is refused is answered with what was asked for, the right form and every
/// server that there is.
pub proof fn law_refused_imports_are_explained(specifier: Seq<char>, names: Seq<Seq<char>>)
    ensures
        names.len() > 0 ==> not_found_text(specifier, names) == "module not found: "@ + specifier
            + ". Import a server as `import * as x from './servers/<name>'`; available servers: "@
            + text::joined(names, ", "@),
        names.len() == 0 ==> not_found_text(specifier, names) == "module not found: "@ + specifier
            + ". Import a server as `import * as x from './servers/<name>'`; available servers: "@
            + "(none)"@,
        import_path(specifier) == "./servers/"@ + specifier,
{
}

/// The function of a tool hands the server's name, the tool's name and its arguments to
/// the bridge, in this order, and is exported under the tool's name.
pub proof fn law_functions_call_their_own_tool(server: Seq<char>, tool: Seq<char>, i: nat)
    ensures
        wrapper_text(server, tool, i) == "function __t"@ + text::decimal(i)
            + "(args) { return __c("@ + literal(server) + ", "@ + literal(tool)
            + ", JSON.stringify(args === undefined ? {} : args)); }\n"@ + "export { __t"@
            + text::decimal(i) + " as "@ + literal(tool) + " };\n"@,
{
}

/// A module is the line that takes up the bridge and, for each tool in order, its comment
/// and its function, and nothing else.
pub proof fn law_modules_are_made_of_their_tools(server: ServerView)
    ensures
        module_text(server) == "const __c = globalThis.__codemodeCall;\n"@ + Seq::new(
            server.tools.len(),
            |i: int|
                doc_text(server.tools[i]) + wrapper_text(server.name, server.tools[i].name, i as nat),
        ).flatten(),
{
    lemma_tools_text(server, server.tools.len());
}

proof fn lemma_tools_text(server: ServerView, n: nat)
    requires
        n <= server.tools.len(),
    ensures
        tools_text(server, n) == Seq::new(
            n,
            |i: int|
                doc_text(server.tools[i]) + wrapper_text(server.name, server.tools[i].name, i as nat),
        ).flatten(),
    decreases n,
{
    let piece = |i: int|
        doc_text(server.tools[i]) + wrapper_text(server.name, server.tools[i].name, i as nat);
    let pieces = Seq::new(n, piece);
    if n == 0 {
        assert(pieces.flatten() =~= Seq::<char>::empty());
    } else {
        let m = (n - 1) as nat;
        lemma_tools_text(server, m);
        assert(pieces.drop_last() =~= Seq::new(m, piece));
        pieces.lemma_flatten_and_flatten_alt_are_equivalent();
        pieces.drop_last().lemma_flatten_and_flatten_alt_are_equivalent();
        assert(pieces.flatten() =~= pieces.drop_last().flatten() + pieces.last());
        assert(tools_text(server, n) =~= tools_text(server, m) + piece(m as int));
    }
}

/// A text without `*/` is left as it is, and every `*/` is replaced by `* /` with all that
/// stands before and behind it kept.
pub proof fn law_sanitizing_changes_only_comment_ends(before: Seq<char>, after: Seq<char>)
    ensures
        closes_nowhere(before) ==> sanitized(before) == before,
        sanitized(before + seq!['*', '/'] + after) == sanitized(before) + seq!['*', ' ', '/']
            + sanitized(after),
    decreases before.len(),
{
    let whole = before + seq!['*', '/'] + after;
    if before.len() == 0 {
        assert(whole.skip(2) =~= after);
        assert(sanitized(whole) =~= sanitized(before) + seq!['*', ' ', '/'] + sanitized(after));
    } else if before.len() >= 2 && before[0] == '*' && before[1] == '/' {
        law_sanitizing_changes_only_comment_ends(before.skip(2), after);
        assert(closes_at(before, 0));
        assert(whole.skip(2) =~= before.skip(2) + seq!['*', '/'] + after);
        assert(sanitized(whole) =~= sanitized(before) + seq!['*', ' ', '/'] + sanitized(after));
    } else {
        let rest = before.skip(1);
        law_sanitizing_changes_only_comment_ends(rest, after);
        assert(whole.skip(1) =~= rest + seq!['*', '/'] + after);
        assert(whole[0] == before[0]);
        assert(before.len() == 1 ==> whole[1] == '*');
        assert(before.len() > 1 ==> whole[1] == before[1]);
        if closes_nowhere(before) {
            assert forall|i: int| !#[trigger] closes_at(rest, i) by {
                assert(!closes_at(before, i + 1));
            }
            assert(before =~= seq![before[0]] + rest);
        }
        if before.len() == 1 {
            assert(rest =~= Seq::<char>::empty());
            assert(before =~= seq![before[0]]);
        }
        assert(sanitized(before) =~= seq![before[0]] + sanitized(rest));
        assert(sanitized(whole) =~= sanitized(before) + seq!['*', ' ', '/'] + sanitized(after));
    }
}

proof fn lemma_line_end(text: Seq<char>, from: int, end: int)
    requires
        0 <= from <= end <= text.len(),
        forall|i: int| from <= i < end ==> text[i] != '\n',
        end < text.len() ==> text[end] == '\n',
    ensures
        line_end(text, from) == end,
    decreases end - from,
{
    if from < end {
        lemma_line_end(text, from + 1, end);
    }
}

proof fn lemma_line_end_range(text: Seq<char>, from: int)
    requires
        0 <= from <= text.len(),
    ensures
        from <= line_end(text, from) <= text.len(),
    decreases text.len() - from,
{
    if from < text.len() && text[from] != '\n' {
        lemma_line_end_range(text, from + 1);
    }
}

proof fn lemma_line_end_shifts(text: Seq<char>, k: int, from: int)
    requires
        0 <= k <= from <= text.len(),
    ensures
        line_end(text, from) == line_end(text.skip(k), from - k) + k,
    decreases text.len() - from,
{
    if from < text.len() {
        assert(text.skip(k)[from - k] == text[from]);
        if text[from] != '\n' {
            lemma_line_end_shifts(text, k, from + 1);
        }
    }
}

proof fn lemma_lines_shift(text: Seq<char>, k: int, from: int)
    requires
        0 <= k <= from <= text.len(),
    ensures
        lines_from(text, from) == lines_from(text.skip(k), from - k),
    decreases text.len() - from,
{
    if from < text.len() {
        let rest = text.skip(k);
        let end = line_end(text, from);
        lemma_line_end_shifts(text, k, from);
        lemma_line_end_range(text, from);
        if end >= text.len() {
            assert(text.subrange(from, text.len() as int) =~= rest.subrange(
                from - k,
                rest.len() as int,
            ));
        } else {
            lemma_lines_shift(text, k, end + 1);
            assert(text.subrange(from, end) =~= rest.subrange(from - k, end - k));
        }
    }
}

/// A comment has a line for each line of its text, in order: what stands before the first
/// line break, without a carriage return at its end, and then the lines of what follows.
/// A text without line breaks is one line, and an empty one has none.
pub proof fn law_comments_keep_every_line(line: Seq<char>, rest: Seq<char>)
    requires
        forall|i: int| 0 <= i < line.len() ==> line[i] != '\n',
    ensures
        lines_from(line + seq!['\n'] + rest, 0) == seq![
            if line.len() > 0 && line.last() == '\r' {
                line.drop_last()
            } else {
                line
            },
        ] + lines_from(rest, 0),
        line.len() > 0 ==> lines_from(line, 0) == seq![line],
        lines_from(Seq::empty(), 0) == Seq::<Seq<char>>::empty(),
{
    let text = line + seq!['\n'] + rest;
    let n = line.len() as int;
    assert forall|i: int| 0 <= i < n implies text[i] != '\n' by {
        assert(text[i] == line[i]);
    }
    assert(text[n] == '\n');
    lemma_line_end(text, 0, n);
    assert(text.subrange(0, n) =~= line);
    lemma_lines_shift(text, n + 1, n + 1);
    assert(text.skip(n + 1) =~= rest);
    if n > 0 {
        lemma_line_end(line, 0, n);
        assert(line.subrange(0, n) =~= line);
    }
}

/// The lines of a comment stand one after another, each behind its margin.
pub proof fn law_comment_lines_follow_each_other(
    first: Seq<Seq<char>>,
    line: Seq<char>,
    second: Seq<Seq<char>>,
)
    ensures
        comment_lines(Seq::empty()) == Seq::<char>::empty(),
        comment_lines(seq![line]) == " * "@ + line + "\n"@,
        comment_lines(first + second) == comment_lines(first) + comment_lines(second),
    decreases first.len(),
{
    reveal_with_fuel(comment_lines, 2);
    assert(seq![line].skip(1) =~= Seq::<Seq<char>>::empty());
    assert(comment_lines(seq![line]) =~= " * "@ + line + "\n"@);
    if first.len() == 0 {
        assert(first + second =~= second);
        assert(comment_lines(first + second) =~= comment_lines(first) + comment_lines(second));
    } else {
        law_comment_lines_follow_each_other(first.skip(1), line, second);
        assert((first + second).skip(1) =~= first.skip(1) + second);
        assert(comment_lines(first + second) =~= comment_lines(first) + comment_lines(second));
    }
}

/// The comment of a tool tells its description and the signature of its argument, each as
/// far as there is one, on lines of their own; without either there is no comment.
pub proof fn law_comments_tell_description_and_signature(tool: ToolView)
    ensures
        ({
            let told = |body: Seq<char>|
                "/**\n"@ + comment_lines(lines_from(sanitized(body), 0)) + " */\n"@;
            let said = tool.description is Some && tool.description->0.len() > 0;
            match signature(tool.input_schema) {
                Some(sig) => {
                    &&& said ==> doc_text(tool) == told(
                        tool.description->0 + "\n"@ + "@param args "@ + sig,
                    )
                    &&& !said ==> doc_text(tool) == told("@param args "@ + sig)
                },
                None => {
                    &&& said ==> doc_text(tool) == told(tool.description->0)
                    &&& !said ==> doc_text(tool).len() == 0
                },
            }
        }),
{
    reveal_strlit("@param args ");
    reveal_strlit("\n");
    let said = tool.description is Some && tool.description->0.len() > 0;
    match signature(tool.input_schema) {
        Some(sig) => {
            if said {
                assert(doc_body(tool) =~= tool.description->0 + "\n"@ + "@param args "@ + sig);
            } else {
                assert(doc_body(tool) =~= "@param args "@ + sig);
            }
        },
        None => {},
    }
}

proof fn lemma_first_text(items: Seq<Json>)
    ensures
        match first_text(items) {
            Some(name) => exists|i: int|
                0 <= i < items.len() && #[trigger] items[i] == Json::Text(name) && forall|j: int|
                    0 <= j < i ==> !(#[trigger] items[j] is Text),
            None => forall|j: int| 0 <= j < items.len() ==> !(#[trigger] items[j] is Text),
        },
    decreases items.len(),
{
    if items.len() > 0 && !(items[0] is Text) {
        let rest = items.skip(1);
        lemma_first_text(rest);
        assert(forall|i: int| 0 <= i < rest.len() ==> #[trigger] rest[i] == items[i + 1]);
        match first_text(rest) {
            Some(name) => {
                let i = choose|i: int|
                    0 <= i < rest.len() && #[trigger] rest[i] == Json::Text(name) && forall|j: int|
                        0 <= j < i ==> !(#[trigger] rest[j] is Text);
                assert(items[i + 1] == Json::Text(name));
                assert forall|j: int| 0 <= j < i + 1 implies !(#[trigger] items[j] is Text) by {
                    if j > 0 {
                        assert(rest[j - 1] == items[j]);
                    }
                }
            },
            None => {
                assert forall|j: int| 0 <= j < items.len() implies !(#[trigger] items[j] is Text) by {
                    if j > 0 {
                        assert(rest[j - 1] == items[j]);
                    }
                }
            },
        }
    } else if items.len() > 0 {
        assert(items[0] == Json::Text(items[0]->Text_0));
    }
}

/// A property's type is shown by the name that its schema gives, or by the first name in a
/// list of them: each of JSON's own names as it is, an integer as a number, and anything
/// else, or nothing at all, as `any`.
pub proof fn law_types_are_shown_by_name(property: Json, name: Seq<char>)
    ensures
        json::member_of(property, "type"@) == Some(Json::Text(name)) ==> property_type(property)
            == shown_type(name),
        json::member_of(property, "type"@) matches Some(Json::Array(items)) ==> {
            &&& (exists|i: int|
                0 <= i < items.len() && #[trigger] items[i] == Json::Text(name) && forall|j: int|
                    0 <= j < i ==> !(#[trigger] items[j] is Text)) ==> property_type(property)
                == shown_type(name)
            &&& (forall|j: int| 0 <= j < items.len() ==> !(#[trigger] items[j] is Text))
                ==> property_type(property) == "any"@
        },
        !(json::member_of(property, "type"@) matches Some(Json::Text(_)))
            && !(json::member_of(property, "type"@) matches Some(Json::Array(_)))
            ==> property_type(property) == "any"@,
        name == "string"@ || name == "number"@ || name == "boolean"@ || name == "array"@ || name
            == "object"@ || name == "null"@ ==> shown_type(name) == name,
        name == "integer"@ ==> shown_type(name) == "number"@,
        name != "string"@ && name != "number"@ && name != "boolean"@ && name != "array"@ && name
            != "object"@ && name != "null"@ && name != "integer"@ ==> shown_type(name) == "any"@,
{
    if let Some(Json::Array(items)) = json::member_of(property, "type"@) {
        lemma_first_text(items);
        if exists|i: int|
            0 <= i < items.len() && #[trigger] items[i] == Json::Text(name) && forall|j: int|
                0 <= j < i ==> !(#[trigger] items[j] is Text) {
            let i = choose|i: int|
                0 <= i < items.len() && #[trigger] items[i] == Json::Text(name) && forall|j: int|
                    0 <= j < i ==> !(#[trigger] items[j] is Text);
            let first = first_text(items)->0;
            let k = choose|k: int|
                0 <= k < items.len() && #[trigger] items[k] == Json::Text(first) && forall|j: int|
                    0 <= j < k ==> !(#[trigger] items[j] is Text);
            assert(items[i] is Text && items[k] is Text);
            assert(i == k);
        }
    }
    reveal_strlit("string");
    reveal_strlit("integer");
    reveal_strlit("number");
    reveal_strlit("boolean");
    reveal_strlit("array");
    reveal_strlit("object");
    reveal_strlit("null");
    assert("boolean"@[0] != "integer"@[0]);
}

/// The signature of an argument shows every property of the schema, in order, each by its
/// name, a mark where the schema does not require it, and its type; without properties
/// there is none.
pub proof fn law_signatures_show_every_property(schema: Json, i: int)
    ensures
        match json::member_of(schema, "properties"@) {
            Some(Json::Object(properties)) => {
                let fields = field_texts(schema, properties);
                &&& properties.len() == 0 ==> signature(schema) is None
                &&& properties.len() > 0 ==> signature(schema) == Some(
                    "{ "@ + text::joined(fields, ", "@) + " }"@,
                )
                &&& fields.len() == properties.len()
                &&& 0 <= i < properties.len() ==> {
                    let (name, property) = properties[i];
                    let required = json::member_of(schema, "required"@) matches Some(
                        Json::Array(names),
                    ) && names.contains(Json::Text(name));
                    &&& required ==> fields[i] == name + ": "@ + property_type(property)
                    &&& !required ==> fields[i] == name + "?"@ + ": "@ + property_type(property)
                }
            },
            _ => signature(schema) is None,
        },
{
    if let Some(Json::Object(properties)) = json::member_of(schema, "properties"@) {
        if 0 <= i < properties.len() {
            let (name, property) = properties[i];
            reveal_strlit("");
            assert(name + ""@ =~= name);
            assert(field_texts(schema, properties)[i] == field_text(schema, properties[i]));
        }
    }
}

} // verus!
