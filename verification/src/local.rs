//! Local tools, exposed to the model the same way MCP servers are, and the routing of
//! calls across several sources of tools.

use serde_json::Value;
use vstd::prelude::*;

use crate::error::Error;
use crate::json;
use crate::text;
use crate::types::{ServerInfo, ToolInfo, ToolView};

verus! {

/// A tool and what runs when it is called.
#[derive(Debug)]
pub struct LocalTool<H> {
    pub info: ToolInfo,
    pub handler: H,
}

/// A named group of in-process tools: a virtual server. The model imports
/// `./servers/<name>` and calls its functions, which run the handlers.
#[derive(Debug)]
pub struct LocalTools<H> {
    server: String,
    tools: Vec<LocalTool<H>>,
}

/// The last tool of this name.
pub open spec fn latest(tools: Seq<ToolView>, name: Seq<char>) -> Option<int>
    decreases tools.len(),
{
    if tools.len() == 0 {
        None
    } else if tools.last().name == name {
        Some(tools.len() - 1)
    } else {
        latest(tools.drop_last(), name)
    }
}

/// Those of the first `n` tools that no later one of the same name replaces.
pub open spec fn current(tools: Seq<ToolView>, n: nat) -> Seq<ToolView>
    decreases n,
{
    if n == 0 {
        Seq::empty()
    } else {
        let rest = current(tools, (n - 1) as nat);
        if latest(tools, tools[n - 1].name) == Some(n - 1) {
            rest.push(tools[n - 1])
        } else {
            rest
        }
    }
}

/// The error for a tool that the group does not have.
pub open spec fn unknown_tool(tool: Seq<char>) -> Seq<char> {
    "unknown tool '"@ + tool + "'"@
}

impl<H> LocalTools<H> {
    /// The virtual server name.
    pub closed spec fn name(self) -> Seq<char> {
        self.server@
    }

    /// What was registered, in order.
    pub closed spec fn registered(self) -> Seq<ToolView> {
        self.tools@.map_values(|t: LocalTool<H>| t.info@)
    }

    /// What runs for each of the registered tools.
    pub closed spec fn handlers(self) -> Seq<H> {
        self.tools@.map_values(|t: LocalTool<H>| t.handler)
    }

    /// A group without tools.
    pub fn new(server: String) -> (group: Self)
        ensures
            group.name() == server@,
            group.registered() == Seq::<ToolView>::empty(),
            group.handlers() == Seq::<H>::empty(),
    {
        let tools: Vec<LocalTool<H>> = Vec::new();
        let group: LocalTools<H> = LocalTools { server, tools };
        assert(group.registered() =~= Seq::empty());
        assert(group.handlers() =~= Seq::empty());
        group
    }

    /// The virtual server name these tools are exposed under.
    pub fn server(&self) -> (server: &str)
        ensures
            server@ == self.name(),
    {
        self.server.as_str()
    }

    /// Registers a tool: a name, a description, a JSON Schema for the arguments, and
    /// a handler. A tool of the same name is replaced.
    pub fn tool(self, name: String, description: String, input_schema: Value, handler: H) -> (group:
        Self)
        ensures
            group.name() == self.name(),
            group.registered() == self.registered().push(
                ToolView {
                    name: name@,
                    description: Some(description@),
                    input_schema: json::json_view(input_schema),
                },
            ),
            group.handlers() == self.handlers().push(handler),
    {
        let mut group: LocalTools<H> = self;
        let info: ToolInfo = ToolInfo { name, description: Some(description), input_schema };
        group.tools.push(LocalTool { info, handler });
        assert(group.registered() =~= self.registered().push(info@));
        assert(group.handlers() =~= self.handlers().push(handler));
        group
    }

    /// The names of the registered tools.
    pub fn tool_names(&self) -> (names: Vec<String>)
        ensures
            text::texts(names@) == self.registered().map_values(|t: ToolView| t.name),
    {
        let mut names: Vec<String> = Vec::new();
        let mut i: usize = 0;
        while i < self.tools.len()
            invariant
                i <= self.tools@.len(),
                names@.len() == i,
                forall|j: int| 0 <= j < i ==> (#[trigger] names@[j])@ == self.registered()[j].name,
            decreases self.tools@.len() - i,
        {
            names.push(self.tools[i].info.name.clone());
            i = i + 1;
        }
        assert(text::texts(names@) =~= self.registered().map_values(|t: ToolView| t.name));
        names
    }

    /// How the group presents itself as a server.
    pub fn info(&self) -> (info: ServerInfo)
        ensures
            info.name@ == self.name(),
            info.description is None,
    {
        ServerInfo { name: self.server.clone(), description: None }
    }

    /// The tools of the group, each name once; only under the group's own server
    /// name.
    pub fn list(&self, server: &str) -> (tools: Result<Vec<ToolInfo>, Error>)
        ensures
            if server@ == self.name() {
                tools is Ok && crate::types::tool_views(tools->Ok_0@) == current(
                    self.registered(),
                    self.registered().len(),
                )
            } else {
                tools matches Err(Error::UnknownServer(unknown)) && unknown@ == server@
            },
    {
        if !text::same(server, self.server.as_str()) {
            return Err(Error::UnknownServer(server.to_owned()));
        }
        let ghost registered = self.registered();
        let mut tools: Vec<ToolInfo> = Vec::new();
        let mut i: usize = 0;
        assert(crate::types::tool_views(tools@) =~= current(registered, 0));
        while i < self.tools.len()
            invariant
                registered == self.registered(),
                i <= self.tools@.len(),
                crate::types::tool_views(tools@) == current(registered, i as nat),
            decreases self.tools@.len() - i,
        {
            let ghost before = tools@;
            if self.find(self.tools[i].info.name.as_str()) == Some(i) {
                let copy: ToolInfo = self.tools[i].info.clone();
                tools.push(copy);
                assert(crate::types::tool_views(tools@) =~= crate::types::tool_views(before).push(
                    registered[i as int],
                ));
            }
            i = i + 1;
        }
        Ok(tools)
    }

    /// What runs for a call to a tool of this group.
    pub fn resolve(&self, server: &str, tool: &str) -> (handler: Result<&H, Error>)
        ensures
            if server@ != self.name() {
                handler matches Err(Error::UnknownServer(unknown)) && unknown@ == server@
            } else {
                match latest(self.registered(), tool@) {
                    Some(i) => handler is Ok && *handler->Ok_0 == self.handlers()[i],
                    None => handler matches Err(Error::Tool(message)) && message@ == unknown_tool(
                        tool@,
                    ),
                }
            },
    {
        if !text::same(server, self.server.as_str()) {
            return Err(Error::UnknownServer(server.to_owned()));
        }
        match self.find(tool) {
            Some(i) => Ok(&self.tools[i].handler),
            None => {
                let mut message: String = String::new();
                message.push_str("unknown tool '");
                message.push_str(tool);
                message.push_str("'");
                assert(message@ =~= unknown_tool(tool@));
                Err(Error::Tool(message))
            },
        }
    }

    fn find(&self, name: &str) -> (at: Option<usize>)
        ensures
            match latest(self.registered(), name@) {
                Some(i) => at is Some && at->0 == i && 0 <= i < self.tools@.len(),
                None => at is None,
            },
    {
        let ghost registered = self.registered();
        let mut n: usize = self.tools.len();
        assert(registered.take(n as int) =~= registered);
        while n > 0
            invariant
                registered == self.registered(),
                n <= self.tools@.len(),
                latest(registered, name@) == latest(registered.take(n as int), name@),
            decreases n,
        {
            assert(registered.take(n as int).drop_last() =~= registered.take(n - 1));
            assert(registered.take(n as int).last() == self.tools@[n - 1].info@);
            if text::same(self.tools[n - 1].info.name.as_str(), name) {
                return Some(n - 1);
            }
            n = n - 1;
        }
        None
    }
}

/// What a call gives once its handler has answered: the value as it is, or the handler's
/// text as the tool's own error.
pub fn handled(answer: Result<Value, String>) -> (result: Result<Value, Error>)
    ensures
        match answer {
            Ok(value) => result == Ok::<Value, Error>(value),
            Err(message) => result == Err::<Value, Error>(Error::Tool(message)),
        },
{
    match answer {
        Ok(value) => Ok(value),
        Err(message) => Err(Error::Tool(message)),
    }
}

proof fn lemma_latest(tools: Seq<ToolView>, name: Seq<char>)
    ensures
        match latest(tools, name) {
            Some(i) => 0 <= i < tools.len() && tools[i].name == name && forall|j: int|
                i < j < tools.len() ==> (#[trigger] tools[j]).name != name,
            None => forall|j: int| 0 <= j < tools.len() ==> (#[trigger] tools[j]).name != name,
        },
    decreases tools.len(),
{
    if tools.len() > 0 && tools.last().name != name {
        lemma_latest(tools.drop_last(), name);
        let found = latest(tools.drop_last(), name);
        assert forall|j: int|
            (found is Some ==> found->0 < j) && 0 <= j < tools.len() implies (
        #[trigger] tools[j]).name != name by {
            if j < tools.len() - 1 {
                assert(tools.drop_last()[j] == tools[j]);
            }
        }
    }
}

proof fn lemma_current(tools: Seq<ToolView>, n: nat)
    requires
        n <= tools.len(),
    ensures
        forall|k: int|
            0 <= k < current(tools, n).len() ==> exists|i: int|
                0 <= i < n && #[trigger] tools[i] == #[trigger] current(tools, n)[k] && latest(
                    tools,
                    tools[i].name,
                ) == Some(i),
        forall|i: int|
            0 <= i < n && latest(tools, (#[trigger] tools[i]).name) == Some(i) ==> current(
                tools,
                n,
            ).contains(tools[i]),
    decreases n,
{
    if n > 0 {
        lemma_current(tools, (n - 1) as nat);
        let rest = current(tools, (n - 1) as nat);
        let all = current(tools, n);
        assert forall|k: int| 0 <= k < all.len() implies exists|i: int|
            0 <= i < n && #[trigger] tools[i] == #[trigger] all[k] && latest(tools, tools[i].name)
                == Some(i) by {
            if k < rest.len() {
                assert(all[k] == rest[k]);
                let i = choose|i: int|
                    0 <= i < n - 1 && #[trigger] tools[i] == rest[k] && latest(tools, tools[i].name)
                        == Some(i);
                assert(tools[i] == all[k]);
            } else {
                assert(tools[n - 1] == all[k]);
            }
        }
        assert forall|i: int|
            0 <= i < n && latest(tools, (#[trigger] tools[i]).name) == Some(i) implies all.contains(
            tools[i],
        ) by {
            if i < n - 1 {
                let k = choose|k: int| 0 <= k < rest.len() && rest[k] == tools[i];
                assert(all[k] == tools[i]);
            } else {
                assert(all.last() == tools[i]);
            }
        }
    }
}

/// A tool is listed exactly when a call to it runs something, and it is listed as it
/// was registered last.
pub proof fn law_listed_tools_are_the_callable_ones(tools: Seq<ToolView>, tool: ToolView)
    ensures
        current(tools, tools.len()).contains(tool) <==> {
            &&& latest(tools, tool.name) is Some
            &&& tools[latest(tools, tool.name)->0] == tool
        },
{
    lemma_current(tools, tools.len());
    lemma_latest(tools, tool.name);
    let all = current(tools, tools.len());
    if all.contains(tool) {
        let k = choose|k: int| 0 <= k < all.len() && all[k] == tool;
        let i = choose|i: int|
            0 <= i < tools.len() && #[trigger] tools[i] == all[k] && latest(tools, tools[i].name)
                == Some(i);
        assert(tools[i] == tool);
    }
}

/// Routes calls across several sources (MCP servers and local tool groups) by server
/// name.
#[derive(Debug)]
pub struct Router {
    owners: Vec<Vec<String>>,
}

/// The last of the first `n` sources that provides a server.
pub open spec fn owner(names: Seq<Seq<Seq<char>>>, n: nat, server: Seq<char>) -> Option<int>
    decreases n,
{
    if n == 0 {
        None
    } else if names[n - 1].contains(server) {
        Some(n - 1)
    } else {
        owner(names, (n - 1) as nat, server)
    }
}

impl Router {
    /// The servers that each source provides.
    pub closed spec fn names(self) -> Seq<Seq<Seq<char>>> {
        self.owners@.map_values(|names: Vec<String>| text::texts(names@))
    }

    /// A router over sources that provide these servers.
    pub fn new(owners: Vec<Vec<String>>) -> (router: Router)
        ensures
            router.names() == owners@.map_values(|names: Vec<String>| text::texts(names@)),
    {
        Router { owners }
    }

    /// Which source a call to this server goes to.
    pub fn route(&self, server: &str) -> (source: Result<usize, Error>)
        ensures
            match owner(self.names(), self.names().len(), server@) {
                Some(i) => source == Ok::<usize, Error>(i as usize) && 0 <= i
                    < self.names().len() <= usize::MAX,
                None => source matches Err(Error::UnknownServer(unknown)) && unknown@ == server@,
            },
    {
        let ghost names = self.names();
        let mut n: usize = self.owners.len();
        while n > 0
            invariant
                names == self.names(),
                n <= self.owners@.len(),
                owner(names, names.len(), server@) == owner(names, n as nat, server@),
            decreases n,
        {
            let list: &Vec<String> = &self.owners[n - 1];
            assert(names[n - 1] == text::texts(list@));
            let mut i: usize = 0;
            while i < list.len()
                invariant
                    names == self.names(),
                    0 < n <= self.owners@.len(),
                    owner(names, names.len(), server@) == owner(names, n as nat, server@),
                    names[n - 1] == text::texts(list@),
                    i <= list@.len(),
                    forall|j: int| 0 <= j < i ==> #[trigger] text::texts(list@)[j] != server@,
                decreases list@.len() - i,
            {
                if text::same(list[i].as_str(), server) {
                    assert(text::texts(list@)[i as int] == server@);
                    assert(names[n - 1].contains(server@));
                    assert(names.len() == self.owners.len());
                    return Ok(n - 1);
                }
                i = i + 1;
            }
            n = n - 1;
        }
        Err(Error::UnknownServer(server.to_owned()))
    }
}

/// A call is routed to a source exactly where some source provides its server, and
/// then to one that does.
pub proof fn law_calls_reach_an_owner(names: Seq<Seq<Seq<char>>>, n: nat, server: Seq<char>)
    requires
        n <= names.len(),
    ensures
        match owner(names, n, server) {
            Some(i) => 0 <= i < n && names[i].contains(server),
            None => forall|i: int| 0 <= i < n ==> !(#[trigger] names[i]).contains(server),
        },
    decreases n,
{
    if n > 0 && !names[n - 1].contains(server) {
        law_calls_reach_an_owner(names, (n - 1) as nat, server);
    }
}

/// A call runs what was registered last under its tool's name, and nothing exactly where
/// no tool of that name was registered.
pub proof fn law_last_registration_holds(tools: Seq<ToolView>, name: Seq<char>)
    ensures
        match latest(tools, name) {
            Some(i) => 0 <= i < tools.len() && tools[i].name == name && forall|j: int|
                i < j < tools.len() ==> (#[trigger] tools[j]).name != name,
            None => forall|j: int| 0 <= j < tools.len() ==> (#[trigger] tools[j]).name != name,
        },
        unknown_tool(name) == "unknown tool '"@ + name + "'"@,
{
    lemma_latest(tools, name);
}

proof fn lemma_current_order(tools: Seq<ToolView>, n: nat)
    requires
        n <= tools.len(),
    ensures
        forall|k: int|
            0 <= k < current(tools, n).len() ==> (latest(
                tools,
                (#[trigger] current(tools, n)[k]).name,
            ) matches Some(i) && 0 <= i < n),
        forall|k: int, l: int|
            0 <= k < l < current(tools, n).len() ==> latest(
                tools,
                (#[trigger] current(tools, n)[k]).name,
            )->0 < latest(tools, (#[trigger] current(tools, n)[l]).name)->0,
    decreases n,
{
    if n > 0 {
        let rest = current(tools, (n - 1) as nat);
        let all = current(tools, n);
        lemma_current_order(tools, (n - 1) as nat);
        assert forall|k: int| 0 <= k < all.len() implies (latest(
            tools,
            (#[trigger] all[k]).name,
        ) matches Some(i) && 0 <= i < n) by {
            if k < rest.len() {
                assert(all[k] == rest[k]);
            }
        }
        assert forall|k: int, l: int| 0 <= k < l < all.len() implies latest(
            tools,
            (#[trigger] all[k]).name,
        )->0 < latest(tools, (#[trigger] all[l]).name)->0 by {
            assert(all[k] == rest[k]);
            if l < rest.len() {
                assert(all[l] == rest[l]);
            }
        }
    }
}

/// Every name that was registered is listed once, in the order of the registrations that
/// hold.
pub proof fn law_tools_are_listed_once_in_order(tools: Seq<ToolView>, name: Seq<char>)
    ensures
        ({
            let listed = current(tools, tools.len());
            &&& forall|k: int, l: int|
                0 <= k < l < listed.len() ==> latest(tools, (#[trigger] listed[k]).name)->0
                    < latest(tools, (#[trigger] listed[l]).name)->0
            &&& forall|k: int, l: int|
                0 <= k < l < listed.len() ==> (#[trigger] listed[k]).name != (
                #[trigger] listed[l]).name
            &&& (exists|i: int| 0 <= i < tools.len() && (#[trigger] tools[i]).name == name)
                <==> exists|k: int| 0 <= k < listed.len() && (#[trigger] listed[k]).name == name
        }),
{
    let listed = current(tools, tools.len());
    lemma_current_order(tools, tools.len());
    lemma_current(tools, tools.len());
    lemma_latest(tools, name);
    if exists|i: int| 0 <= i < tools.len() && (#[trigger] tools[i]).name == name {
        let last = latest(tools, name)->0;
        assert(listed.contains(tools[last]));
        let k = choose|k: int| 0 <= k < listed.len() && listed[k] == tools[last];
        assert(listed[k].name == name);
    }
    if exists|k: int| 0 <= k < listed.len() && (#[trigger] listed[k]).name == name {
        let k = choose|k: int| 0 <= k < listed.len() && (#[trigger] listed[k]).name == name;
        let i = choose|i: int|
            0 <= i < tools.len() && #[trigger] tools[i] == listed[k] && latest(tools, tools[i].name)
                == Some(i);
        assert(tools[i].name == name);
    }
}

/// Where several sources provide a server, its calls go to the last of them.
pub proof fn law_last_source_of_a_server_holds(
    names: Seq<Seq<Seq<char>>>,
    n: nat,
    server: Seq<char>,
)
    requires
        n <= names.len(),
    ensures
        owner(names, n, server) matches Some(i) ==> forall|j: int|
            i < j < n ==> !(#[trigger] names[j]).contains(server),
    decreases n,
{
    if n > 0 && !names[n - 1].contains(server) {
        law_last_source_of_a_server_holds(names, (n - 1) as nat, server);
    }
}

} // verus!
