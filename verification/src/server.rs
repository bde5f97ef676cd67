//! The MCP server that fronts the engine: the three tools it advertises, and what a call
//! to one of them asks for.

use serde_json::Value;
use vstd::prelude::*;

use crate::error::Error;
use crate::json::{self, Json};
use crate::text;
use crate::types::{self, ServerInfo, ToolInfo, ToolView};

verus! {

/// What a call to one of the three tools asks for.
#[derive(Debug)]
pub enum Request {
    /// List the servers.
    Discover,
    /// List the tools of this server.
    Find(String),
    /// Run this code.
    Execute(String),
}

/// A request, by what it says.
pub enum RequestView {
    Discover,
    Find(Seq<char>),
    Execute(Seq<char>),
}

impl View for Request {
    type V = RequestView;

    open spec fn view(&self) -> RequestView {
        match *self {
            Request::Discover => RequestView::Discover,
            Request::Find(server) => RequestView::Find(server@),
            Request::Execute(code) => RequestView::Execute(code@),
        }
    }
}

/// The argument of this name, where it is a text.
pub open spec fn text_argument(args: Seq<(Seq<char>, Json)>, name: Seq<char>) -> Option<Seq<char>> {
    match json::member(args, name) {
        Some(Json::Text(text)) => Some(text),
        _ => None,
    }
}

/// What a call asks for, or what is wrong with it.
pub open spec fn requested(tool: Seq<char>, args: Seq<(Seq<char>, Json)>) -> Result<
    RequestView,
    Seq<char>,
> {
    if tool == "discover"@ {
        Ok(RequestView::Discover)
    } else if tool == "find"@ {
        match text_argument(args, "server"@) {
            Some(server) => Ok(RequestView::Find(server)),
            None => Err("missing 'server'"@),
        }
    } else if tool == "execute"@ {
        match text_argument(args, "code"@) {
            Some(code) => Ok(RequestView::Execute(code)),
            None => Err("missing 'code'"@),
        }
    } else {
        Err("unknown tool '"@ + tool + "'"@)
    }
}

fn get_text<'a>(args: &'a serde_json::Map<String, Value>, name: &str) -> (found: Option<&'a str>)
    ensures
        match text_argument(json::map_view(*args), name@) {
            Some(text) => found is Some && found->0@ == text,
            None => found is None,
        },
{
    match json::get(args, name) {
        Some(value) => json::as_str(value),
        None => None,
    }
}

/// Reads a call to one of the three tools; an error says what is wrong with its
/// parameters.
pub fn dispatch_tool(name: &str, args: &serde_json::Map<String, Value>) -> (request: Result<
    Request,
    String,
>)
    ensures
        match requested(name@, json::map_view(*args)) {
            Ok(view) => request is Ok && request->Ok_0@ == view,
            Err(message) => request is Err && request->Err_0@ == message,
        },
{
    if text::same(name, "discover") {
        Ok(Request::Discover)
    } else if text::same(name, "find") {
        match get_text(args, "server") {
            Some(server) => Ok(Request::Find(server.to_owned())),
            None => Err("missing 'server'".to_owned()),
        }
    } else if text::same(name, "execute") {
        match get_text(args, "code") {
            Some(code) => Ok(Request::Execute(code.to_owned())),
            None => Err("missing 'code'".to_owned()),
        }
    } else {
        let mut message: String = String::new();
        message.push_str("unknown tool '");
        message.push_str(name);
        message.push_str("'");
        assert(message@ =~= "unknown tool '"@ + name@ + "'"@);
        Err(message)
    }
}

/// The schema of a tool without arguments.
pub open spec fn no_argument_schema() -> Json {
    Json::Object(
        seq![("type"@, Json::Text("object"@)), ("properties"@, Json::Object(Seq::empty()))],
    )
}

/// The schema of a tool with one required text argument.
pub open spec fn text_argument_schema(name: Seq<char>) -> Json {
    Json::Object(
        seq![
            ("type"@, Json::Text("object"@)),
            (
                "properties"@,
                Json::Object(seq![(name, Json::Object(seq![("type"@, Json::Text("string"@))]))]),
            ),
            ("required"@, Json::Array(seq![Json::Text(name)])),
        ],
    )
}

/// The three tools that are advertised.
pub open spec fn definitions(execute_guidance: Seq<char>) -> Seq<ToolView> {
    seq![
        ToolView {
            name: "discover"@,
            description: Some("List the MCP servers available to your code."@),
            input_schema: no_argument_schema(),
        },
        ToolView {
            name: "find"@,
            description: Some("List one server's tools and their input schemas."@),
            input_schema: text_argument_schema("server"@),
        },
        ToolView {
            name: "execute"@,
            description: Some(execute_guidance),
            input_schema: text_argument_schema("code"@),
        },
    ]
}

proof fn lemma_keys()
    ensures
        "type"@ != "properties"@,
        "type"@ != "required"@,
        "properties"@ != "required"@,
{
    reveal_strlit("type");
    reveal_strlit("properties");
    reveal_strlit("required");
    assert("type"@.len() == 4);
    assert("properties"@.len() == 10);
    assert("required"@.len() == 8);
}

proof fn lemma_insert_last(members: Seq<(Seq<char>, Json)>, name: Seq<char>, value: Json)
    requires
        forall|i: int| 0 <= i < members.len() ==> (#[trigger] members[i]).0 != name,
    ensures
        json::with_member(members, name, value) == members.push((name, value)),
    decreases members.len(),
{
    if members.len() == 0 {
        assert(members.push((name, value)) =~= seq![(name, value)]);
    } else {
        lemma_insert_last(members.skip(1), name, value);
        assert(members.push((name, value)) =~= seq![members[0]] + members.skip(1).push(
            (name, value),
        ));
    }
}

fn no_argument() -> (schema: Value)
    ensures
        json::json_view(schema) == no_argument_schema(),
{
    let mut map: serde_json::Map<String, Value> = json::new_object();
    let ghost m0 = json::map_view(map);
    proof {
        lemma_keys();
        lemma_insert_last(m0, "type"@, Json::Text("object"@));
    }
    json::insert(&mut map, "type".to_owned(), json::string("object".to_owned()));
    let ghost m1 = json::map_view(map);
    proof {
        lemma_insert_last(m1, "properties"@, Json::Object(Seq::empty()));
    }
    json::insert(&mut map, "properties".to_owned(), json::object(json::new_object()));
    assert(json::map_view(map) =~= seq![
        ("type"@, Json::Text("object"@)),
        ("properties"@, Json::Object(Seq::empty())),
    ]);
    json::object(map)
}

fn text_argument_value(name: &str) -> (schema: Value)
    ensures
        json::json_view(schema) == text_argument_schema(name@),
{
    proof {
        lemma_keys();
    }
    let mut kind: serde_json::Map<String, Value> = json::new_object();
    proof {
        lemma_insert_last(json::map_view(kind), "type"@, Json::Text("string"@));
    }
    json::insert(&mut kind, "type".to_owned(), json::string("string".to_owned()));
    assert(json::map_view(kind) =~= seq![("type"@, Json::Text("string"@))]);
    let mut properties: serde_json::Map<String, Value> = json::new_object();
    let kind: Value = json::object(kind);
    proof {
        lemma_insert_last(json::map_view(properties), name@, json::json_view(kind));
    }
    json::insert(&mut properties, name.to_owned(), kind);
    assert(json::map_view(properties) =~= seq![(name@, json::json_view(kind))]);
    let mut required: Vec<Value> = Vec::new();
    required.push(json::string(name.to_owned()));
    let required: Value = json::array(required);
    assert(json::json_view(required)->Array_0 =~= seq![Json::Text(name@)]);
    let properties: Value = json::object(properties);
    let mut map: serde_json::Map<String, Value> = json::new_object();
    proof {
        lemma_insert_last(json::map_view(map), "type"@, Json::Text("object"@));
    }
    json::insert(&mut map, "type".to_owned(), json::string("object".to_owned()));
    proof {
        lemma_insert_last(json::map_view(map), "properties"@, json::json_view(properties));
    }
    json::insert(&mut map, "properties".to_owned(), properties);
    proof {
        lemma_insert_last(json::map_view(map), "required"@, json::json_view(required));
    }
    json::insert(&mut map, "required".to_owned(), required);
    assert(json::map_view(map) =~= seq![
        ("type"@, Json::Text("object"@)),
        ("properties"@, json::json_view(properties)),
        ("required"@, json::json_view(required)),
    ]);
    json::object(map)
}

/// The three tool definitions the server advertises. `execute_guidance` is the runtime's
/// usage guidance, surfaced as the `execute` tool's description.
pub fn tool_definitions(execute_guidance: &str) -> (tools: Vec<ToolInfo>)
    ensures
        types::tool_views(tools@) == definitions(execute_guidance@),
{
    let mut tools: Vec<ToolInfo> = Vec::new();
    tools.push(
        ToolInfo {
            name: "discover".to_owned(),
            description: Some("List the MCP servers available to your code.".to_owned()),
            input_schema: no_argument(),
        },
    );
    tools.push(
        ToolInfo {
            name: "find".to_owned(),
            description: Some("List one server's tools and their input schemas.".to_owned()),
            input_schema: text_argument_value("server"),
        },
    );
    tools.push(
        ToolInfo {
            name: "execute".to_owned(),
            description: Some(execute_guidance.to_owned()),
            input_schema: text_argument_value("code"),
        },
    );
    assert(types::tool_views(tools@) =~= definitions(execute_guidance@));
    tools
}

/// Exactly the tools that are advertised can be called: a call to one of them is never
/// refused as unknown, and a call to any other always is.
pub proof fn law_advertised_tools_are_the_known_ones(
    tool: Seq<char>,
    args: Seq<(Seq<char>, Json)>,
    guidance: Seq<char>,
)
    ensures
        definitions(guidance).map_values(|t: ToolView| t.name).contains(tool) <==> requested(
            tool,
            args,
        ) != Err::<RequestView, Seq<char>>("unknown tool '"@ + tool + "'"@),
{
    let names = definitions(guidance).map_values(|t: ToolView| t.name);
    assert(names[0] == "discover"@);
    assert(names[1] == "find"@);
    assert(names[2] == "execute"@);
    reveal_strlit("missing 'server'");
    reveal_strlit("missing 'code'");
    reveal_strlit("unknown tool '");
    assert("missing 'server'"@[0] == 'm');
    assert("missing 'code'"@[0] == 'm');
    assert(("unknown tool '"@ + tool + "'"@)[0] == 'u');
}

/// One line of an inspection listing: a tool and what it says of itself.
pub open spec fn tool_line(tool: ToolView) -> Seq<char> {
    "  - "@ + tool.name + " "@ + (match tool.description {
        Some(text) => text,
        None => Seq::empty(),
    }) + "\n"@
}

/// The lines for the first `n` tools.
pub open spec fn tool_lines(tools: Seq<ToolView>, n: nat) -> Seq<char>
    decreases n,
{
    if n == 0 {
        Seq::empty()
    } else {
        tool_lines(tools, (n - 1) as nat) + tool_line(tools[n - 1])
    }
}

/// What an inspection shows of a server: its name, then its tools or why they could not
/// be listed.
pub open spec fn listing(server: ServerInfo, tools: Result<Vec<ToolInfo>, Error>) -> Seq<char> {
    server.name@ + "\n"@ + (match tools {
        Ok(list) => tool_lines(types::tool_views(list@), list@.len()),
        Err(error) => "  (error listing tools: "@ + crate::error::error_text(error) + ")\n"@,
    })
}

/// Renders a server and its tools for inspection.
pub fn listing_text(server: &ServerInfo, tools: &Result<Vec<ToolInfo>, Error>) -> (out: String)
    ensures
        out@ == listing(*server, *tools),
{
    let mut out: String = String::new();
    out.push_str(server.name.as_str());
    out.push_str("\n");
    let ghost head = server.name@ + "\n"@;
    assert(out@ =~= head);
    match tools {
        Ok(list) => {
            let ghost views = types::tool_views(list@);
            let mut i: usize = 0;
            assert(out@ =~= head + tool_lines(views, 0));
            while i < list.len()
                invariant
                    i <= list@.len(),
                    views == types::tool_views(list@),
                    out@ == head + tool_lines(views, i as nat),
                decreases list@.len() - i,
            {
                let tool: &ToolInfo = &list[i];
                let ghost before = out@;
                assert(views[i as int] == tool@);
                out.push_str("  - ");
                out.push_str(tool.name.as_str());
                out.push_str(" ");
                if let Some(text) = &tool.description {
                    out.push_str(text.as_str());
                }
                out.push_str("\n");
                assert(out@ =~= before + tool_line(tool@));
                assert(out@ =~= head + tool_lines(views, (i + 1) as nat));
                i = i + 1;
            }
        },
        Err(error) => {
            out.push_str("  (error listing tools: ");
            let message: String = error.message();
            out.push_str(message.as_str());
            out.push_str(")\n");
            assert(out@ =~= listing(*server, *tools));
        },
    }
    out
}

/// A call asks for what its tool and its argument say: `discover` whatever the arguments,
/// `find` for the server that is named, `execute` for the code that is given, each in full;
/// an argument that is missing or no text is asked for, and any other tool is unknown.
pub proof fn law_calls_ask_for_what_they_say(
    tool: Seq<char>,
    args: Seq<(Seq<char>, Json)>,
    given: Seq<char>,
)
    ensures
        requested("discover"@, args) == Ok::<RequestView, Seq<char>>(RequestView::Discover),
        json::member(args, "server"@) == Some(Json::Text(given)) ==> requested("find"@, args)
            == Ok::<RequestView, Seq<char>>(RequestView::Find(given)),
        !(json::member(args, "server"@) matches Some(Json::Text(_))) ==> requested("find"@, args)
            == Err::<RequestView, Seq<char>>("missing 'server'"@),
        json::member(args, "code"@) == Some(Json::Text(given)) ==> requested("execute"@, args)
            == Ok::<RequestView, Seq<char>>(RequestView::Execute(given)),
        !(json::member(args, "code"@) matches Some(Json::Text(_))) ==> requested("execute"@, args)
            == Err::<RequestView, Seq<char>>("missing 'code'"@),
        tool != "discover"@ && tool != "find"@ && tool != "execute"@ ==> requested(tool, args)
            == Err::<RequestView, Seq<char>>("unknown tool '"@ + tool + "'"@),
{
    reveal_strlit("discover");
    reveal_strlit("find");
    reveal_strlit("execute");
    assert("discover"@.len() == 8);
    assert("find"@.len() == 4);
    assert("execute"@.len() == 7);
}

/// The arguments hold a text under each of these names.
pub open spec fn gives_texts(args: Seq<(Seq<char>, Json)>, names: Seq<Json>) -> bool {
    forall|i: int|
        0 <= i < names.len() ==> (#[trigger] names[i] matches Json::Text(name) && json::member(
            args,
            name,
        ) matches Some(Json::Text(_)))
}

/// The arguments that the schema of a tool requires.
pub open spec fn required_names(schema: Json) -> Seq<Json> {
    match json::member_of(schema, "required"@) {
        Some(Json::Array(names)) => names,
        _ => Seq::empty(),
    }
}

/// A call to an advertised tool is taken exactly where it gives, as texts, the arguments
/// that the tool's schema requires; the schema describes each of them, and the guidance is
/// what `execute` says of itself.
pub proof fn law_advertised_schemas_ask_for_what_is_needed(
    guidance: Seq<char>,
    i: int,
    args: Seq<(Seq<char>, Json)>,
)
    requires
        0 <= i < definitions(guidance).len(),
    ensures
        definitions(guidance).len() == 3,
        ({
            let tool = definitions(guidance)[i];
            let required = required_names(tool.input_schema);
            &&& requested(tool.name, args) is Ok <==> gives_texts(args, required)
            &&& json::member_of(tool.input_schema, "type"@) == Some(Json::Text("object"@))
            &&& json::member_of(tool.input_schema, "properties"@) matches Some(
                Json::Object(properties),
            ) && properties.len() == required.len() && forall|k: int|
                0 <= k < required.len() ==> #[trigger] required[k] == Json::Text(properties[k].0)
                    && json::member_of(properties[k].1, "type"@) == Some(Json::Text("string"@))
            &&& tool.description is Some
            &&& tool.name == "execute"@ ==> tool.description == Some(guidance)
        }),
{
    reveal_with_fuel(json::member, 4);
    lemma_keys();
    reveal_strlit("discover");
    reveal_strlit("find");
    reveal_strlit("execute");
    assert("discover"@.len() == 8);
    assert("find"@.len() == 4);
    assert("execute"@.len() == 7);
    let tool = definitions(guidance)[i];
    let members = tool.input_schema->Object_0;
    assert(members[0].0 == "type"@);
    assert(members.skip(1)[0] == members[1]);
    assert(members.len() > 2 ==> members.skip(1).skip(1)[0] == members[2]);
    let required = required_names(tool.input_schema);
    if i == 0 {
        assert(members.skip(1).skip(1).len() == 0);
        assert(required =~= Seq::<Json>::empty());
    } else {
        let name = if i == 1 {
            "server"@
        } else {
            "code"@
        };
        assert(required =~= seq![Json::Text(name)]);
        assert(required[0] == Json::Text(name));
        let properties = members[1].1->Object_0;
        assert(properties[0].0 == name);
        let kind = properties[0].1->Object_0;
        assert(kind[0] == ("type"@, Json::Text("string"@)));
    }
}

/// An inspection shows a server by its name and then every tool that it listed, in order,
/// each on a line with its name and what it says of itself; a tool more at the end adds its
/// line and changes nothing before it. A failure is shown with its reason.
pub proof fn law_inspections_show_every_tool(
    server: ServerInfo,
    tools: Vec<ToolInfo>,
    longer: Vec<ToolInfo>,
    tool: ToolInfo,
    error: Error,
)
    requires
        longer@ == tools@.push(tool),
    ensures
        tools@.len() == 0 ==> listing(server, Ok(tools)) == server.name@ + "\n"@,
        tool.description matches Some(text) ==> listing(server, Ok(longer)) == listing(
            server,
            Ok(tools),
        ) + ("  - "@ + tool.name@ + " "@ + text@ + "\n"@),
        tool.description is None ==> listing(server, Ok(longer)) == listing(server, Ok(tools)) + (
        "  - "@ + tool.name@ + " "@ + "\n"@),
        listing(server, Err(error)) == server.name@ + "\n"@ + ("  (error listing tools: "@
            + crate::error::error_text(error) + ")\n"@),
{
    let views = types::tool_views(tools@);
    let more = types::tool_views(longer@);
    assert(more =~= views.push(tool@));
    lemma_tool_lines(views, more, views.len());
    let head = server.name@ + "\n"@;
    if tools@.len() == 0 {
        assert(head + tool_lines(views, 0) =~= head);
    }
    assert(tool_lines(more, more.len()) == tool_lines(more, views.len()) + tool_line(tool@));
    assert(listing(server, Ok(longer)) =~= listing(server, Ok(tools)) + tool_line(tool@));
    if tool.description is None {
        assert(tool_line(tool@) =~= "  - "@ + tool.name@ + " "@ + "\n"@);
    }
}

proof fn lemma_tool_lines(tools: Seq<ToolView>, longer: Seq<ToolView>, n: nat)
    requires
        n <= tools.len() <= longer.len(),
        forall|i: int| 0 <= i < tools.len() ==> #[trigger] tools[i] == longer[i],
    ensures
        tool_lines(tools, n) == tool_lines(longer, n),
    decreases n,
{
    if n > 0 {
        lemma_tool_lines(tools, longer, (n - 1) as nat);
    }
}

/// A request says what it holds.
pub proof fn law_requests_say_what_they_hold(text: String)
    ensures
        Request::Discover@ is Discover,
        Request::Find(text)@ == RequestView::Find(text@),
        Request::Execute(text)@ == RequestView::Execute(text@),
{
}

} // verus!
