//! JSON values. They belong to `serde_json` and are carried through this crate as
//! they are; what they hold is spoken of as a [`Json`]. The functions that only
//! pass a call on to `serde_json` stand at the top, and everything else in the
//! crate reads JSON through them.

use serde_json::Value;
use vstd::prelude::*;

use crate::text;

verus! {

/// A JSON value of `serde_json`. Opaque: see [`json_view`].
#[verifier::external_type_specification]
#[verifier::external_body]
pub struct ExValue(serde_json::Value);

/// A JSON object of `serde_json`. Opaque: see [`map_view`].
#[verifier::external_type_specification]
#[verifier::external_body]
#[verifier::reject_recursive_types(K)]
#[verifier::reject_recursive_types(V)]
pub struct ExMap<K, V>(serde_json::Map<K, V>);

/// The error of `std::io`, carried through.
#[verifier::external_type_specification]
#[verifier::external_body]
pub struct ExIoError(std::io::Error);

/// What a JSON value holds. A number is known by the text that `serde_json` writes it
/// as; an object lists its members in the order in which they were added.
pub enum Json {
    Null,
    Bool(bool),
    Number(Seq<char>),
    Text(Seq<char>),
    Array(Seq<Json>),
    Object(Seq<(Seq<char>, Json)>),
}

/// What a `serde_json::Value` holds.
pub uninterp spec fn json_view(value: Value) -> Json;

/// The members of a `serde_json::Map`, in order.
pub uninterp spec fn map_view(map: serde_json::Map<String, Value>) -> Seq<(Seq<char>, Json)>;

/// A hexadecimal digit, in lower case.
pub open spec fn hex_digit(n: int) -> char {
    seq!['0', '1', '2', '3', '4', '5', '6', '7', '8', '9', 'a', 'b', 'c', 'd', 'e', 'f'][n]
}

/// A character inside a JSON string. A quote, a backslash and a control character are
/// escaped, any other character stands for itself.
pub open spec fn escaped_char(c: char) -> Seq<char> {
    if c == '"' {
        seq!['\\', '"']
    } else if c == '\\' {
        seq!['\\', '\\']
    } else if c == '\u{8}' {
        seq!['\\', 'b']
    } else if c == '\t' {
        seq!['\\', 't']
    } else if c == '\n' {
        seq!['\\', 'n']
    } else if c == '\u{c}' {
        seq!['\\', 'f']
    } else if c == '\r' {
        seq!['\\', 'r']
    } else if (c as int) < 0x20 {
        seq!['\\', 'u', '0', '0', hex_digit(c as int / 16), hex_digit(c as int % 16)]
    } else {
        seq![c]
    }
}

/// A text between the quotes of its JSON string.
pub open spec fn escaped(text: Seq<char>) -> Seq<char>
    decreases text.len(),
{
    if text.len() == 0 {
        Seq::empty()
    } else {
        escaped_char(text[0]) + escaped(text.skip(1))
    }
}

/// The JSON string of a text.
pub open spec fn quoted(text: Seq<char>) -> Seq<char> {
    seq!['"'] + escaped(text) + seq!['"']
}

/// The compact text of a value: no spaces, and the members of an object in order.
pub open spec fn json_text(json: Json) -> Seq<char>
    decreases json,
{
    match json {
        Json::Null => seq!['n', 'u', 'l', 'l'],
        Json::Bool(true) => seq!['t', 'r', 'u', 'e'],
        Json::Bool(false) => seq!['f', 'a', 'l', 's', 'e'],
        Json::Number(text) => text,
        Json::Text(text) => quoted(text),
        Json::Array(items) => seq!['['] + items_text(items) + seq![']'],
        Json::Object(members) => seq!['{'] + members_text(members) + seq!['}'],
    }
}

/// The elements of an array, with a comma between any two.
pub open spec fn items_text(items: Seq<Json>) -> Seq<char>
    decreases items,
{
    if items.len() == 0 {
        Seq::empty()
    } else if items.len() == 1 {
        json_text(items[0])
    } else {
        json_text(items[0]) + seq![','] + items_text(items.skip(1))
    }
}

/// The members of an object, with a comma between any two.
pub open spec fn members_text(members: Seq<(Seq<char>, Json)>) -> Seq<char>
    decreases members,
{
    if members.len() == 0 {
        Seq::empty()
    } else if members.len() == 1 {
        quoted(members[0].0) + seq![':'] + json_text(members[0].1)
    } else {
        quoted(members[0].0) + seq![':'] + json_text(members[0].1) + seq![','] + members_text(
            members.skip(1),
        )
    }
}

/// The text of an array takes two bytes more than that of its elements, and so does
/// the text of an object.
pub proof fn lemma_container_bytes(json: Json)
    ensures
        json matches Json::Array(items) ==> text::byte_len(json_text(json)) == text::byte_len(
            items_text(items),
        ) + 2,
        json matches Json::Object(members) ==> text::byte_len(json_text(json)) == text::byte_len(
            members_text(members),
        ) + 2,
{
    match json {
        Json::Array(items) => lemma_enclosed_bytes('[', items_text(items), ']'),
        Json::Object(members) => lemma_enclosed_bytes('{', members_text(members), '}'),
        _ => {},
    }
}

proof fn lemma_enclosed_bytes(open: char, inner: Seq<char>, close: char)
    requires
        text::width(open) == 1,
        text::width(close) == 1,
    ensures
        text::byte_len(seq![open] + inner + seq![close]) == text::byte_len(inner) + 2,
{
    let none = Seq::<char>::empty();
    text::lemma_byte_len_zero(none);
    text::lemma_byte_len_push(none, open);
    text::lemma_byte_len_push(none, close);
    assert(none.push(open) =~= seq![open]);
    assert(none.push(close) =~= seq![close]);
    text::lemma_byte_len_concat(seq![open], inner);
    text::lemma_byte_len_concat(seq![open] + inner, seq![close]);
}

/// The text of the elements has room for the first one and for the others.
pub proof fn lemma_items_bytes(items: Seq<Json>)
    requires
        items.len() > 0,
    ensures
        text::byte_len(items_text(items)) >= text::byte_len(json_text(items[0])) + text::byte_len(
            items_text(items.skip(1)),
        ),
{
    let first = json_text(items[0]);
    let rest = items_text(items.skip(1));
    if items.len() == 1 {
        text::lemma_byte_len_zero(rest);
    } else {
        text::lemma_byte_len_concat(first, seq![',']);
        text::lemma_byte_len_concat(first + seq![','], rest);
    }
}

/// The text of the members has room for the value of the first one and for the others.
pub proof fn lemma_members_bytes(members: Seq<(Seq<char>, Json)>)
    requires
        members.len() > 0,
    ensures
        text::byte_len(members_text(members)) >= text::byte_len(json_text(members[0].1))
            + text::byte_len(members_text(members.skip(1))),
{
    let name = quoted(members[0].0) + seq![':'];
    let first = json_text(members[0].1);
    let rest = members_text(members.skip(1));
    text::lemma_byte_len_concat(name, first);
    if members.len() == 1 {
        text::lemma_byte_len_zero(rest);
    } else {
        text::lemma_byte_len_concat(name + first, seq![',']);
        text::lemma_byte_len_concat(name + first + seq![','], rest);
    }
}

/// What `serde_json::from_str` reads a text as, where it is the text of one value.
pub uninterp spec fn json_parse(text: Seq<char>) -> Option<Json>;

/// What the values of a list hold.
pub open spec fn json_views(list: Seq<Value>) -> Seq<Json> {
    list.map_values(|v: Value| json_view(v))
}

/// `Clone` of `serde_json::Value`: a value that holds the same.
pub assume_specification[ <serde_json::Value as Clone>::clone ](value: &serde_json::Value) -> (copy:
    serde_json::Value)
    ensures
        json_view(copy) == json_view(*value),
;

/// `serde_json::Value::Null`: the value that holds null.
#[verifier::external_body]
pub(crate) fn null() -> (value: Value)
    ensures
        json_view(value) == Json::Null,
{
    Value::Null
}

/// `serde_json::Value::String`: the value that holds a text.
#[verifier::external_body]
pub(crate) fn string(text: String) -> (value: Value)
    ensures
        json_view(value) == Json::Text(text@),
{
    Value::String(text)
}

/// `serde_json::Value::as_str`: the text, where the value is one.
#[verifier::external_body]
pub(crate) fn as_str(value: &Value) -> (text: Option<&str>)
    ensures
        match json_view(*value) {
            Json::Text(t) => text is Some && text->0@ == t,
            _ => text is None,
        },
{
    value.as_str()
}

/// `serde_json::Value::as_array`: the elements, where the value is an array.
#[verifier::external_body]
pub(crate) fn as_array(value: &Value) -> (list: Option<&Vec<Value>>)
    ensures
        match json_view(*value) {
            Json::Array(items) => list is Some && json_views(list->0@) == items,
            _ => list is None,
        },
{
    value.as_array()
}

/// `serde_json::Value::as_object`: the members, where the value is an object.
#[verifier::external_body]
pub(crate) fn as_object(value: &Value) -> (map: Option<&serde_json::Map<String, Value>>)
    ensures
        match json_view(*value) {
            Json::Object(members) => map is Some && map_view(*map->0) == members,
            _ => map is None,
        },
{
    value.as_object()
}

/// The members of an object taken out of its value; `Err` hands any other value
/// back. The two outcomes are the variant `serde_json::Value::Object` and the rest.
#[verifier::external_body]
pub(crate) fn into_object(value: Value) -> (map: Result<serde_json::Map<String, Value>, Value>)
    ensures
        match json_view(value) {
            Json::Object(members) => map is Ok && map_view(map->Ok_0) == members,
            _ => map == Err::<serde_json::Map<String, Value>, Value>(value),
        },
{
    match value {
        Value::Object(map) => Ok(map),
        other => Err(other),
    }
}

/// `serde_json::Map::new`: the object without members.
#[verifier::external_body]
pub(crate) fn new_object() -> (map: serde_json::Map<String, Value>)
    ensures
        map_view(map) == Seq::<(Seq<char>, Json)>::empty(),
{
    serde_json::Map::new()
}

/// The members with `value` under `name`: in the place of the member of that name, or
/// at the end where there is none.
pub open spec fn with_member(
    members: Seq<(Seq<char>, Json)>,
    name: Seq<char>,
    value: Json,
) -> Seq<(Seq<char>, Json)>
    decreases members.len(),
{
    if members.len() == 0 {
        seq![(name, value)]
    } else if members[0].0 == name {
        members.update(0, (name, value))
    } else {
        seq![members[0]] + with_member(members.skip(1), name, value)
    }
}

/// `serde_json::Map::insert`: sets a member. A member that is there already keeps its
/// place; a new one comes last.
#[verifier::external_body]
pub(crate) fn insert(map: &mut serde_json::Map<String, Value>, name: String, value: Value)
    ensures
        map_view(*final(map)) == with_member(map_view(*old(map)), name@, json_view(value)),
{
    let _ = map.insert(name, value);
}

/// `serde_json::Value::Object`: the value that holds an object.
#[verifier::external_body]
pub(crate) fn object(map: serde_json::Map<String, Value>) -> (value: Value)
    ensures
        json_view(value) == Json::Object(map_view(map)),
{
    Value::Object(map)
}

/// `serde_json::Value::Array`: the value that holds a list.
#[verifier::external_body]
pub(crate) fn array(list: Vec<Value>) -> (value: Value)
    ensures
        json_view(value) == Json::Array(json_views(list@)),
{
    Value::Array(list)
}

/// `serde_json::Map::iter`: the members of an object, in order.
#[verifier::external_body]
pub(crate) fn members(map: &serde_json::Map<String, Value>) -> (list: Vec<(&String, &Value)>)
    ensures
        list@.len() == map_view(*map).len(),
        forall|i: int|
            0 <= i < list@.len() ==> (#[trigger] list@[i]).0@ == map_view(*map)[i].0 && json_view(
                *list@[i].1,
            ) == map_view(*map)[i].1,
{
    map.iter().collect()
}

/// `serde_json::Map::get`: the member of a name. Names are unique in an object, so
/// the first one found is the only one.
#[verifier::external_body]
pub(crate) fn get<'a>(map: &'a serde_json::Map<String, Value>, name: &str) -> (value: Option<&'a Value>)
    ensures
        match member(map_view(*map), name@) {
            Some(json) => value is Some && json_view(*value->0) == json,
            None => value is None,
        },
{
    map.get(name)
}

/// `serde_json::to_string` on a text: its JSON string, in which only quotes,
/// backslashes and control characters are escaped. Writing a text never fails.
#[verifier::external_body]
pub(crate) fn string_literal(text: &str) -> (literal: Option<String>)
    ensures
        literal is Some,
        literal->0@ == quoted(text@),
{
    serde_json::to_string(text).ok()
}

/// `Display` of `serde_json::Value`: the compact text of the value.
#[verifier::external_body]
pub(crate) fn to_text(value: &Value) -> (text: String)
    ensures
        text@ == json_text(json_view(*value)),
{
    value.to_string()
}

/// `serde_json::from_str`: the value a text is written for, or nothing where it is
/// not the text of one JSON value. Which texts are read, and as what, is known only
/// by name.
#[verifier::external_body]
pub(crate) fn parse(text: &str) -> (value: Option<Value>)
    ensures
        match json_parse(text@) {
            Some(json) => value is Some && json_view(value->0) == json,
            None => value is None,
        },
{
    serde_json::from_str(text).ok()
}

/// The value of the first member called `name`.
pub open spec fn member(members: Seq<(Seq<char>, Json)>, name: Seq<char>) -> Option<Json>
    decreases members.len(),
{
    if members.len() == 0 {
        None
    } else if members[0].0 == name {
        Some(members[0].1)
    } else {
        member(members.skip(1), name)
    }
}

/// The member called `name` of an object; nothing has members but an object.
pub open spec fn member_of(json: Json, name: Seq<char>) -> Option<Json> {
    match json {
        Json::Object(members) => member(members, name),
        _ => None,
    }
}

/// What nests within a depth nests within any greater one.
pub proof fn lemma_nests_within_more(json: Json, depth: nat, more: nat)
    requires
        nests_within(json, depth),
        depth <= more,
    ensures
        nests_within(json, more),
    decreases depth,
{
    if json is Array {
        assert forall|i: int| 0 <= i < json->Array_0.len() implies nests_within(
            #[trigger] json->Array_0[i],
            (more - 1) as nat,
        ) by {
            lemma_nests_within_more(json->Array_0[i], (depth - 1) as nat, (more - 1) as nat);
        }
    } else if json is Object {
        assert forall|i: int| 0 <= i < json->Object_0.len() implies nests_within(
            (#[trigger] json->Object_0[i]).1,
            (more - 1) as nat,
        ) by {
            lemma_nests_within_more(json->Object_0[i].1, (depth - 1) as nat, (more - 1) as nat);
        }
    }
}

/// Looks up a member of a value.
pub(crate) fn get_member<'a>(value: &'a Value, name: &str) -> (found: Option<&'a Value>)
    ensures
        match member_of(json_view(*value), name@) {
            Some(json) => found is Some && json_view(*found->0) == json,
            None => found is None,
        },
{
    match as_object(value) {
        Some(map) => get(map, name),
        None => None,
    }
}

/// Counts the bytes of an output against a budget and refuses the first piece that
/// does not fit, so that an output over the budget is never held whole.
pub struct Sink {
    written: usize,
    max: usize,
}

impl Sink {
    /// The bytes taken so far.
    pub closed spec fn written(self) -> nat {
        self.written as nat
    }

    /// The budget.
    pub closed spec fn max(self) -> nat {
        self.max as nat
    }

    /// An empty sink with a budget of `max` bytes.
    pub fn new(max: usize) -> (sink: Sink)
        ensures
            sink.written() == 0,
            sink.max() == max,
    {
        Sink { written: 0, max }
    }

    /// Takes a piece of `n` bytes if it still fits; otherwise nothing changes.
    pub fn accept(&mut self, n: usize) -> (ok: bool)
        ensures
            final(self).max() == old(self).max(),
            ok == (old(self).written() + n <= old(self).max()),
            final(self).written() == old(self).written() + (if ok { n as nat } else { 0 }),
    {
        if self.written > self.max || n > self.max - self.written {
            false
        } else {
            self.written = self.written + n;
            true
        }
    }
}

impl std::io::Write for Sink {
    fn write(&mut self, buf: &[u8]) -> (taken: std::io::Result<usize>)
        ensures
            final(self).max() == old(self).max(),
            match taken {
                Ok(n) => {
                    &&& n == buf@.len()
                    &&& final(self).written() == old(self).written() + buf@.len()
                    &&& final(self).written() <= final(self).max()
                },
                Err(_) => {
                    &&& old(self).written() + buf@.len() > old(self).max()
                    &&& final(self).written() == old(self).written()
                },
            },
    {
        if self.accept(buf.len()) {
            Ok(buf.len())
        } else {
            Err(io_error("output too large"))
        }
    }

    fn flush(&mut self) -> (flushed: std::io::Result<()>)
        ensures
            flushed is Ok,
            final(self).max() == old(self).max(),
            final(self).written() == old(self).written(),
    {
        Ok(())
    }
}

/// `std::io::Error::other`: an error of `std::io` with this message. Nothing is claimed of
/// it; that it is an error stops the write.
#[verifier::external_body]
fn io_error(message: &'static str) -> std::io::Error {
    std::io::Error::other(message)
}

/// `serde_json::to_writer` into a [`Sink`]. It writes the compact text piece by
/// piece and stops at the first piece the sink refuses; writing a value fails for
/// no other reason. So it succeeds exactly when the whole text fits.
#[verifier::external_body]
fn write_into(sink: Sink, value: &Value) -> (fits: bool)
    requires
        sink.written() == 0,
    ensures
        fits == (text::byte_len(json_text(json_view(*value))) <= sink.max()),
{
    serde_json::to_writer(sink, value).is_ok()
}

/// Whether `value` serializes to at most `max` bytes. The text is not held whole:
/// writing stops as soon as the budget is exceeded.
pub fn serialized_within(value: &Value, max: usize) -> (fits: bool)
    ensures
        fits == (text::byte_len(json_text(json_view(*value))) <= max),
{
    write_into(Sink::new(max), value)
}

/// Arrays and objects are nested at most `depth` deep.
pub open spec fn nests_within(json: Json, depth: nat) -> bool
    decreases depth,
{
    if json is Array {
        depth > 0 && forall|i: int|
            0 <= i < json->Array_0.len() ==> nests_within(
                #[trigger] json->Array_0[i],
                (depth - 1) as nat,
            )
    } else if json is Object {
        depth > 0 && forall|i: int|
            0 <= i < json->Object_0.len() ==> nests_within(
                (#[trigger] json->Object_0[i]).1,
                (depth - 1) as nat,
            )
    } else {
        true
    }
}

/// Whether the arrays and objects of `value` are nested at most `depth` deep. The
/// check itself goes no deeper than that.
pub fn depth_within(value: &Value, depth: usize) -> (fits: bool)
    ensures
        fits == nests_within(json_view(*value), depth as nat),
    decreases depth,
{
    let ghost json = json_view(*value);
    if let Some(list) = as_array(value) {
        if depth == 0 {
            return false;
        }
        let mut i: usize = 0;
        while i < list.len()
            invariant
                depth > 0,
                i <= list@.len(),
                json == json_view(*value),
                json is Array,
                json->Array_0 == json_views(list@),
                forall|j: int|
                    0 <= j < i ==> nests_within(#[trigger] json->Array_0[j], (depth - 1) as nat),
            decreases list@.len() - i,
        {
            assert(json->Array_0[i as int] == json_view(list@[i as int]));
            if !depth_within(&list[i], depth - 1) {
                return false;
            }
            i = i + 1;
        }
        return true;
    }
    if let Some(map) = as_object(value) {
        if depth == 0 {
            return false;
        }
        let list: Vec<(&String, &Value)> = members(map);
        let mut i: usize = 0;
        while i < list.len()
            invariant
                depth > 0,
                i <= list@.len(),
                json == json_view(*value),
                json is Object,
                json->Object_0.len() == list@.len(),
                forall|j: int|
                    0 <= j < list@.len() ==> json_view(*(#[trigger] list@[j]).1)
                        == json->Object_0[j].1,
                forall|j: int|
                    0 <= j < i ==> nests_within((#[trigger] json->Object_0[j]).1, (depth - 1) as nat),
            decreases list@.len() - i,
        {
            assert(json_view(*list@[i as int].1) == json->Object_0[i as int].1);
            if !depth_within(list[i].1, depth - 1) {
                return false;
            }
            i = i + 1;
        }
        return true;
    }
    true
}

/// How deeply the arrays and objects of a value nest: not at all in a scalar, and one
/// level more in a container than in the deepest of what it holds.
pub open spec fn nesting(json: Json) -> nat
    decreases json,
{
    match json {
        Json::Array(items) => 1 + deepest_item(items),
        Json::Object(members) => 1 + deepest_member(members),
        _ => 0,
    }
}

/// The greater of two numbers.
pub open spec fn greater(a: nat, b: nat) -> nat {
    if a < b {
        b
    } else {
        a
    }
}

/// The nesting of the deepest of some values.
pub open spec fn deepest_item(items: Seq<Json>) -> nat
    decreases items,
{
    if items.len() == 0 {
        0
    } else {
        greater(nesting(items[0]), deepest_item(items.skip(1)))
    }
}

/// The nesting of the deepest of some members.
pub open spec fn deepest_member(members: Seq<(Seq<char>, Json)>) -> nat
    decreases members,
{
    if members.len() == 0 {
        0
    } else {
        greater(nesting(members[0].1), deepest_member(members.skip(1)))
    }
}

proof fn lemma_deepest_item(items: Seq<Json>, depth: nat)
    ensures
        deepest_item(items) <= depth <==> forall|i: int|
            0 <= i < items.len() ==> nests_within(#[trigger] items[i], depth),
    decreases items,
{
    if items.len() > 0 {
        let rest = items.skip(1);
        law_nesting_is_bounded_exactly(items[0], depth);
        lemma_deepest_item(rest, depth);
        assert(forall|i: int| 0 <= i < rest.len() ==> #[trigger] rest[i] == items[i + 1]);
        if deepest_item(items) <= depth {
            assert forall|i: int| 0 <= i < items.len() implies nests_within(
                #[trigger] items[i],
                depth,
            ) by {
                if i > 0 {
                    assert(rest[i - 1] == items[i]);
                }
            }
        }
    }
}

proof fn lemma_deepest_member(members: Seq<(Seq<char>, Json)>, depth: nat)
    ensures
        deepest_member(members) <= depth <==> forall|i: int|
            0 <= i < members.len() ==> nests_within((#[trigger] members[i]).1, depth),
    decreases members,
{
    if members.len() > 0 {
        let rest = members.skip(1);
        law_nesting_is_bounded_exactly(members[0].1, depth);
        lemma_deepest_member(rest, depth);
        assert(forall|i: int| 0 <= i < rest.len() ==> #[trigger] rest[i] == members[i + 1]);
        if deepest_member(members) <= depth {
            assert forall|i: int| 0 <= i < members.len() implies nests_within(
                (#[trigger] members[i]).1,
                depth,
            ) by {
                if i > 0 {
                    assert(rest[i - 1] == members[i]);
                }
            }
        }
    }
}

/// A value is within a depth exactly when it nests no deeper.
pub proof fn law_nesting_is_bounded_exactly(json: Json, depth: nat)
    ensures
        nests_within(json, depth) <==> nesting(json) <= depth,
    decreases json,
{
    match json {
        Json::Array(items) => {
            if depth > 0 {
                lemma_deepest_item(items, (depth - 1) as nat);
            }
            assert(json->Array_0 == items);
        },
        Json::Object(members) => {
            if depth > 0 {
                lemma_deepest_member(members, (depth - 1) as nat);
            }
            assert(json->Object_0 == members);
        },
        _ => {},
    }
}

/// A member is found exactly where one of that name is there, and it is the first such
/// one; only objects have members.
pub proof fn law_members_are_found_by_name(members: Seq<(Seq<char>, Json)>, name: Seq<char>)
    ensures
        match member(members, name) {
            Some(json) => exists|i: int|
                0 <= i < members.len() && #[trigger] members[i] == (name, json) && forall|j: int|
                    0 <= j < i ==> (#[trigger] members[j]).0 != name,
            None => forall|j: int| 0 <= j < members.len() ==> (#[trigger] members[j]).0 != name,
        },
        member_of(Json::Object(members), name) == member(members, name),
        forall|json: Json| !(json is Object) ==> #[trigger] member_of(json, name) is None,
    decreases members.len(),
{
    if members.len() > 0 && members[0].0 != name {
        let rest = members.skip(1);
        law_members_are_found_by_name(rest, name);
        assert(forall|i: int| 0 <= i < rest.len() ==> #[trigger] rest[i] == members[i + 1]);
        match member(rest, name) {
            Some(json) => {
                let i = choose|i: int|
                    0 <= i < rest.len() && #[trigger] rest[i] == (name, json) && forall|j: int|
                        0 <= j < i ==> (#[trigger] rest[j]).0 != name;
                assert(members[i + 1] == (name, json));
                assert forall|j: int| 0 <= j < i + 1 implies (#[trigger] members[j]).0 != name by {
                    if j > 0 {
                        assert(rest[j - 1] == members[j]);
                    }
                }
            },
            None => {
                assert forall|j: int| 0 <= j < members.len() implies (#[trigger] members[j]).0
                    != name by {
                    if j > 0 {
                        assert(rest[j - 1] == members[j]);
                    }
                }
            },
        }
    } else if members.len() > 0 {
        assert(members[0] == (name, members[0].1));
    }
}

/// What the values of a list hold is what each of them holds, in order.
pub proof fn law_views_are_those_of_the_values(list: Seq<Value>, i: int)
    requires
        0 <= i < list.len(),
    ensures
        json_views(list).len() == list.len(),
        json_views(list)[i] == json_view(list[i]),
{
}

} // verus!
