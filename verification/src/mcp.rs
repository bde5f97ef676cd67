//! The downstream MCP servers: how each is launched, what a call hands over, and what
//! its result means.

use serde_json::Value;
use vstd::prelude::*;

use crate::config::{self, ServerConfig, ServerPlan};
use crate::error::Error;
use crate::json::{self, Json};
use crate::text;
use crate::types::{self, ServerInfo, ServerInfoView};

verus! {

/// The servers that can be launched. A connection is made on first use.
#[derive(Debug)]
pub struct Launches {
    servers: Vec<ServerConfig>,
}

/// The first server of this name.
pub open spec fn launch_of(servers: Seq<ServerPlan>, name: Seq<char>) -> Option<ServerPlan>
    decreases servers.len(),
{
    if servers.len() == 0 {
        None
    } else if servers[0].name == name {
        Some(servers[0])
    } else {
        launch_of(servers.skip(1), name)
    }
}

/// What is told of a server: its name, and nothing of how it is launched.
pub open spec fn told_of(server: ServerPlan) -> ServerInfoView {
    ServerInfoView { name: server.name, description: None }
}

impl Launches {
    /// The servers.
    pub closed spec fn servers(self) -> Seq<ServerPlan> {
        config::plans(self.servers@)
    }

    /// The servers of a configuration.
    pub fn new(servers: Vec<ServerConfig>) -> (launches: Launches)
        ensures
            launches.servers() == config::plans(servers@),
    {
        Launches { servers }
    }

    /// How to launch a server.
    pub fn find(&self, server: &str) -> (launch: Result<&ServerConfig, Error>)
        ensures
            match launch_of(self.servers(), server@) {
                Some(found) => launch is Ok && launch->Ok_0@ == found,
                None => launch matches Err(Error::UnknownServer(unknown)) && unknown@ == server@,
            },
    {
        let ghost servers = self.servers();
        let mut i: usize = 0;
        assert(servers.skip(0) =~= servers);
        while i < self.servers.len()
            invariant
                servers == self.servers(),
                i <= self.servers@.len(),
                launch_of(servers, server@) == launch_of(servers.skip(i as int), server@),
            decreases self.servers@.len() - i,
        {
            assert(servers.skip(i as int)[0] == self.servers@[i as int]@);
            assert(servers.skip(i as int).skip(1) =~= servers.skip(i + 1));
            if text::same(self.servers[i].name.as_str(), server) {
                return Ok(&self.servers[i]);
            }
            i = i + 1;
        }
        Err(Error::UnknownServer(server.to_owned()))
    }

    /// The names of the servers, in order.
    pub fn server_names(&self) -> (names: Vec<String>)
        ensures
            text::texts(names@) == self.servers().map_values(|s: ServerPlan| s.name),
    {
        let mut names: Vec<String> = Vec::new();
        let mut i: usize = 0;
        while i < self.servers.len()
            invariant
                i <= self.servers@.len(),
                names@.len() == i,
                forall|j: int| 0 <= j < i ==> (#[trigger] names@[j])@ == self.servers()[j].name,
            decreases self.servers@.len() - i,
        {
            names.push(self.servers[i].name.clone());
            i = i + 1;
        }
        assert(text::texts(names@) =~= self.servers().map_values(|s: ServerPlan| s.name));
        names
    }

    /// The servers as they are discovered, in order.
    pub fn infos(&self) -> (infos: Vec<ServerInfo>)
        ensures
            types::info_views(infos@) == self.servers().map_values(|s: ServerPlan| told_of(s)),
    {
        let mut infos: Vec<ServerInfo> = Vec::new();
        let mut i: usize = 0;
        while i < self.servers.len()
            invariant
                i <= self.servers@.len(),
                infos@.len() == i,
                forall|j: int| 0 <= j < i ==> (#[trigger] infos@[j])@ == told_of(self.servers()[j]),
            decreases self.servers@.len() - i,
        {
            infos.push(ServerInfo { name: self.servers[i].name.clone(), description: None });
            i = i + 1;
        }
        assert(types::info_views(infos@) =~= self.servers().map_values(
            |s: ServerPlan| told_of(s),
        ));
        infos
    }
}

/// What is discovered of a server does not depend on how it is launched or on what is
/// allowed of it: two servers of one name are told of alike.
pub proof fn law_launch_configuration_is_not_told(a: ServerPlan, b: ServerPlan)
    requires
        a.name == b.name,
    ensures
        told_of(a) == told_of(b),
{
}

/// The arguments that a call hands over: those given, where they are an object, and
/// none otherwise.
pub fn call_arguments(args: Value) -> (arguments: serde_json::Map<String, Value>)
    ensures
        json::map_view(arguments) == match json::json_view(args) {
            Json::Object(members) => members,
            _ => Seq::empty(),
        },
{
    match json::into_object(args) {
        Ok(map) => map,
        Err(_) => json::new_object(),
    }
}

/// The result of a tool call.
#[derive(Debug)]
pub struct ToolReply {
    /// The structured content, if there is any.
    pub structured_content: Option<Value>,
    /// The content blocks, in order: the text of a text block, nothing for another.
    pub content: Vec<Option<String>>,
    /// Whether the tool flagged the result as an error.
    pub is_error: Option<bool>,
}

/// The texts of the text blocks, in order.
pub open spec fn block_texts(content: Seq<Option<String>>) -> Seq<Seq<char>>
    decreases content.len(),
{
    if content.len() == 0 {
        Seq::empty()
    } else {
        match content.last() {
            Some(text) => block_texts(content.drop_last()).push(text@),
            None => block_texts(content.drop_last()),
        }
    }
}

/// What a result says, as JSON.
pub open spec fn reply_json(reply: ToolReply) -> Json {
    match reply.structured_content {
        Some(value) => json::json_view(value),
        None => Json::Text(text::joined(block_texts(reply.content@), "\n"@)),
    }
}

/// What a result says, as the text of an error.
pub open spec fn reply_text(reply: ToolReply) -> Seq<char> {
    match reply.structured_content {
        Some(value) => json::json_text(json::json_view(value)),
        None => text::joined(block_texts(reply.content@), "\n"@),
    }
}

/// Turns a tool result into JSON: prefers structured content, else the text blocks; a
/// tool that flagged an error surfaces as one.
pub fn map_result(reply: ToolReply) -> (result: Result<Value, Error>)
    ensures
        if reply.is_error == Some(true) {
            result matches Err(Error::Mcp(message)) && message@ == reply_text(reply)
        } else {
            result is Ok && json::json_view(result->Ok_0) == reply_json(reply)
        },
{
    let is_error: bool = match reply.is_error {
        Some(flag) => flag,
        None => false,
    };
    if let Some(structured) = reply.structured_content {
        return if is_error {
            Err(Error::Mcp(json::to_text(&structured)))
        } else {
            Ok(structured)
        };
    }
    let mut texts: Vec<String> = Vec::new();
    let mut i: usize = 0;
    assert(text::texts(texts@) =~= block_texts(reply.content@.take(0)));
    while i < reply.content.len()
        invariant
            i <= reply.content@.len(),
            text::texts(texts@) == block_texts(reply.content@.take(i as int)),
        decreases reply.content@.len() - i,
    {
        let ghost before = texts@;
        assert(reply.content@.take(i + 1).drop_last() =~= reply.content@.take(i as int));
        if let Some(block) = &reply.content[i] {
            texts.push(block.clone());
            assert(text::texts(texts@) =~= text::texts(before).push(block@));
        }
        i = i + 1;
    }
    assert(reply.content@.take(i as int) =~= reply.content@);
    let joined: String = text::join(&texts, "\n");
    if is_error {
        Err(Error::Mcp(joined))
    } else {
        Ok(json::string(joined))
    }
}

/// A server is launched exactly where one of that name is configured: the first such one.
pub proof fn law_launches_are_found_by_name(servers: Seq<ServerPlan>, name: Seq<char>)
    ensures
        match launch_of(servers, name) {
            Some(found) => found.name == name && exists|i: int|
                0 <= i < servers.len() && #[trigger] servers[i] == found && forall|j: int|
                    0 <= j < i ==> (#[trigger] servers[j]).name != name,
            None => forall|j: int| 0 <= j < servers.len() ==> (#[trigger] servers[j]).name != name,
        },
    decreases servers.len(),
{
    if servers.len() > 0 && servers[0].name != name {
        let rest = servers.skip(1);
        law_launches_are_found_by_name(rest, name);
        assert(forall|i: int| 0 <= i < rest.len() ==> #[trigger] rest[i] == servers[i + 1]);
        let found = launch_of(rest, name);
        if found is Some {
            let i = choose|i: int|
                0 <= i < rest.len() && #[trigger] rest[i] == found->0 && forall|j: int|
                    0 <= j < i ==> (#[trigger] rest[j]).name != name;
            assert(servers[i + 1] == found->0);
            assert forall|j: int| 0 <= j < i + 1 implies (#[trigger] servers[j]).name != name by {
                if j > 0 {
                    assert(rest[j - 1] == servers[j]);
                }
            }
        } else {
            assert forall|j: int| 0 <= j < servers.len() implies (#[trigger] servers[j]).name
                != name by {
                if j > 0 {
                    assert(rest[j - 1] == servers[j]);
                }
            }
        }
    } else if servers.len() > 0 {
        assert(servers[0].name == name);
    }
}

/// A server is told of by its own name, and by nothing else.
pub proof fn law_servers_are_told_by_their_name(server: ServerPlan)
    ensures
        told_of(server).name == server.name,
        told_of(server).description is None,
{
}

/// How many of the blocks are text blocks.
pub open spec fn text_count(content: Seq<Option<String>>) -> nat
    decreases content.len(),
{
    if content.len() == 0 {
        0
    } else {
        text_count(content.drop_last()) + (if content.last() is Some {
            1nat
        } else {
            0nat
        })
    }
}

proof fn lemma_text_count(content: Seq<Option<String>>, i: int)
    requires
        0 <= i < content.len(),
        content[i] is Some,
    ensures
        text_count(content.take(i)) < text_count(content),
    decreases content.len(),
{
    let rest = content.drop_last();
    if i < rest.len() {
        assert(rest.take(i) =~= content.take(i));
        lemma_text_count(rest, i);
    } else {
        assert(content.take(i) =~= rest);
    }
}

/// No text block of a result is lost, added or moved: there are as many texts as text
/// blocks, and the text of each stands where the number of text blocks before it says.
pub proof fn law_text_blocks_are_all_kept(content: Seq<Option<String>>)
    ensures
        block_texts(content).len() == text_count(content),
        forall|i: int|
            0 <= i < content.len() && #[trigger] content[i] is Some ==> block_texts(
                content,
            )[text_count(content.take(i)) as int] == content[i]->0@,
    decreases content.len(),
{
    if content.len() > 0 {
        let rest = content.drop_last();
        law_text_blocks_are_all_kept(rest);
        assert forall|i: int|
            0 <= i < content.len() && #[trigger] content[i] is Some implies block_texts(
            content,
        )[text_count(content.take(i)) as int] == content[i]->0@ by {
            if i < rest.len() {
                assert(rest[i] == content[i]);
                assert(rest.take(i) =~= content.take(i));
                lemma_text_count(rest, i);
            } else {
                assert(content.take(i) =~= rest);
            }
        }
    }
}

/// A result says its structured content where it has any, and otherwise the texts of its
/// text blocks, one to a line; as a value and as the text of an error alike.
pub proof fn law_results_say_what_they_hold(reply: ToolReply)
    ensures
        reply.structured_content matches Some(value) ==> reply_json(reply) == json::json_view(value)
            && reply_text(reply) == json::json_text(json::json_view(value)),
        reply.structured_content is None ==> reply_json(reply) == Json::Text(reply_text(reply))
            && reply_text(reply) == text::joined(block_texts(reply.content@), "\n"@),
{
}

/// Another text block at the end of a result adds its text behind a line break, and a
/// block that is no text adds nothing.
pub proof fn law_every_text_block_adds_a_line(
    reply: ToolReply,
    longer: ToolReply,
    block: Option<String>,
)
    requires
        reply.structured_content is None,
        longer.structured_content is None,
        longer.content@ == reply.content@.push(block),
    ensures
        block is None ==> reply_text(longer) == reply_text(reply),
        block is Some && text_count(reply.content@) == 0 ==> reply_text(longer) == block->0@,
        block is Some && text_count(reply.content@) > 0 ==> reply_text(longer) == reply_text(reply)
            + "\n"@ + block->0@,
{
    let before = block_texts(reply.content@);
    law_text_blocks_are_all_kept(reply.content@);
    assert(longer.content@.drop_last() =~= reply.content@);
    if block is Some {
        assert(before.push(block->0@).drop_last() =~= before);
    }
}

} // verus!
