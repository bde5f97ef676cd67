//! The three-tool brain: what is exposed to the model, how a configuration becomes an
//! engine, and how the engine's "island" takes on and winds down executions.

use std::time::Duration;

use vstd::prelude::*;

use crate::config::{self, Config, McpJsonServer, ServerConfig, ServerPlan};
use crate::error::Error;
use crate::json::{self, Json};
use crate::local::LocalTools;
use crate::runtime::{self, GuardState, Refusal};
use crate::source::{self, AllowList, Reach};
use crate::text;
use crate::types::{
    self, ExecError, Fault, Limits, Outcome, ServerInfo, ServerInfoView, ServerTools, ServerView,
    ToolInfo, ToolView,
};

verus! {

/// Default ceiling on executions running at once on the island. Each running
/// execution holds a full JS context, so this bounds memory/CPU; further calls queue
/// until a slot frees. Override with
/// [`CodeModeBuilder::max_concurrent_executions`].
pub const DEFAULT_MAX_CONCURRENT: usize = 16;

/// The servers that are exposed at all, in order.
pub open spec fn exposed_infos(
    allow: Map<Seq<char>, Reach>,
    servers: Seq<ServerInfoView>,
) -> Seq<ServerInfoView> {
    servers.filter(|s: ServerInfoView| allow.dom().contains(s.name))
}

/// The tools of a server that are exposed, in order.
pub open spec fn exposed_tools(
    allow: Map<Seq<char>, Reach>,
    server: Seq<char>,
    tools: Seq<ToolView>,
) -> Seq<ToolView> {
    tools.filter(|t: ToolView| source::permits(allow, server, t.name))
}

/// Lists the servers exposed to the model's code, by what the source of tools lists.
pub fn discover(allow: &AllowList, listed: Result<Vec<ServerInfo>, Error>) -> (servers: Result<
    Vec<ServerInfo>,
    Error,
>)
    ensures
        match listed {
            Ok(list) => servers is Ok && types::info_views(servers->Ok_0@) == exposed_infos(
                allow@,
                types::info_views(list@),
            ),
            Err(error) => servers == Err::<Vec<ServerInfo>, Error>(error),
        },
{
    let list: Vec<ServerInfo> = match listed {
        Ok(list) => list,
        Err(error) => {
            return Err(error);
        },
    };
    let ghost given = list@;
    let ghost views = types::info_views(given);
    let ghost exposed = |s: ServerInfoView| allow@.dom().contains(s.name);
    let mut servers: Vec<ServerInfo> = Vec::new();
    proof {
        reveal(Seq::filter);
        assert(types::info_views(servers@) =~= views.take(0).filter(exposed));
    }
    for server in it: list
        invariant
            it.seq() == given,
            views == types::info_views(given),
            exposed == (|s: ServerInfoView| allow@.dom().contains(s.name)),
            types::info_views(servers@) == views.take(it.index() as int).filter(exposed),
    {
        let ghost i = it.index() as int;
        let ghost before = servers@;
        proof {
            reveal(Seq::filter);
            assert(views.take(i + 1).drop_last() =~= views.take(i));
            assert(views.take(i + 1).last() == server@);
        }
        if allow.server_allowed(server.name.as_str()) {
            servers.push(server);
            assert(types::info_views(servers@) =~= types::info_views(before).push(server@));
        }
    }
    assert(views.take(views.len() as int) =~= views);
    Ok(servers)
}

/// Refuses a server that is not exposed, as if it were not there.
pub fn check_server(allow: &AllowList, server: &str) -> (checked: Result<(), Error>)
    ensures
        if allow@.dom().contains(server@) {
            checked is Ok
        } else {
            checked matches Err(Error::UnknownServer(unknown)) && unknown@ == server@
        },
{
    if allow.server_allowed(server) {
        Ok(())
    } else {
        Err(Error::UnknownServer(server.to_owned()))
    }
}

fn keep_exposed(allow: &AllowList, server: &str, list: Vec<ToolInfo>) -> (tools: Vec<ToolInfo>)
    ensures
        types::tool_views(tools@) == exposed_tools(allow@, server@, types::tool_views(list@)),
{
    let ghost given = list@;
    let ghost views = types::tool_views(given);
    let ghost exposed = |t: ToolView| source::permits(allow@, server@, t.name);
    let mut tools: Vec<ToolInfo> = Vec::new();
    proof {
        reveal(Seq::filter);
        assert(types::tool_views(tools@) =~= views.take(0).filter(exposed));
    }
    for tool in it: list
        invariant
            it.seq() == given,
            views == types::tool_views(given),
            exposed == (|t: ToolView| source::permits(allow@, server@, t.name)),
            types::tool_views(tools@) == views.take(it.index() as int).filter(exposed),
    {
        let ghost i = it.index() as int;
        let ghost before = tools@;
        proof {
            reveal(Seq::filter);
            assert(views.take(i + 1).drop_last() =~= views.take(i));
            assert(views.take(i + 1).last() == tool@);
        }
        if allow.allows(server, tool.name.as_str()) {
            tools.push(tool);
            assert(types::tool_views(tools@) =~= types::tool_views(before).push(tool@));
        }
    }
    assert(views.take(views.len() as int) =~= views);
    tools
}

/// Lists a server's exposed tools and their input schemas, by what the server lists.
pub fn find(allow: &AllowList, server: &str, listed: Result<Vec<ToolInfo>, Error>) -> (tools:
    Result<Vec<ToolInfo>, Error>)
    ensures
        if !allow@.dom().contains(server@) {
            tools matches Err(Error::UnknownServer(unknown)) && unknown@ == server@
        } else {
            match listed {
                Ok(list) => tools is Ok && types::tool_views(tools->Ok_0@) == exposed_tools(
                    allow@,
                    server@,
                    types::tool_views(list@),
                ),
                Err(error) => tools == Err::<Vec<ToolInfo>, Error>(error),
            }
        },
{
    match check_server(allow, server) {
        Ok(()) => {},
        Err(error) => {
            return Err(error);
        },
    }
    match listed {
        Ok(list) => Ok(keep_exposed(allow, server, list)),
        Err(error) => Err(error),
    }
}

/// A server and what came of listing its tools.
#[derive(Debug)]
pub struct Listing {
    pub server: ServerInfo,
    pub tools: Result<Vec<ToolInfo>, Error>,
}

/// The exposed servers among the first `n` listings, with their exposed tools. One
/// that failed to list its tools is left out.
pub open spec fn exposed_listings(
    allow: Map<Seq<char>, Reach>,
    listings: Seq<Listing>,
    n: nat,
) -> Seq<ServerView>
    decreases n,
{
    if n == 0 {
        Seq::empty()
    } else {
        let rest = exposed_listings(allow, listings, (n - 1) as nat);
        let server = listings[n - 1].server.name@;
        match listings[n - 1].tools {
            Ok(tools) => if allow.dom().contains(server) {
                rest.push(
                    ServerView {
                        name: server,
                        tools: exposed_tools(allow, server, types::tool_views(tools@)),
                    },
                )
            } else {
                rest
            },
            Err(_) => rest,
        }
    }
}

/// Gathers the exposed servers and their allowed tools, for module codegen. A server
/// that fails to list its tools is skipped: a broken server shouldn't tear down
/// executions that don't use it.
pub fn exposed_servers(allow: &AllowList, listings: Vec<Listing>) -> (servers: Vec<ServerTools>)
    ensures
        types::server_views(servers@) == exposed_listings(allow@, listings@, listings@.len()),
{
    let ghost given = listings@;
    let mut servers: Vec<ServerTools> = Vec::new();
    assert(types::server_views(servers@) =~= exposed_listings(allow@, given, 0));
    for listing in it: listings
        invariant
            it.seq() == given,
            types::server_views(servers@) == exposed_listings(allow@, given, it.index() as nat),
    {
        let ghost before = servers@;
        assert(listing == given[it.index() as int]);
        if allow.server_allowed(listing.server.name.as_str()) {
            if let Ok(list) = listing.tools {
                let name: String = listing.server.name;
                let tools: Vec<ToolInfo> = keep_exposed(allow, name.as_str(), list);
                let server: ServerTools = ServerTools { name, tools };
                servers.push(server);
                assert(types::server_views(servers@) =~= types::server_views(before).push(server@));
            }
        }
    }
    servers
}

/// The model never sees more than is exposed: every server that is discovered is on
/// the allowlist, and every tool that is found, or that a module is generated for,
/// is allowed; and nothing of what is exposed is left out.
pub proof fn law_only_exposed_tools_are_seen(
    allow: Map<Seq<char>, Reach>,
    servers: Seq<ServerInfoView>,
    info: ServerInfoView,
    server: Seq<char>,
    tools: Seq<ToolView>,
    tool: ToolView,
)
    ensures
        exposed_infos(allow, servers).contains(info) <==> servers.contains(info)
            && allow.dom().contains(info.name),
        exposed_tools(allow, server, tools).contains(tool) <==> tools.contains(tool)
            && source::permits(allow, server, tool.name),
{
    let a = |s: ServerInfoView| allow.dom().contains(s.name);
    lemma_filter_contains(servers, a, info);
    let b = |t: ToolView| source::permits(allow, server, t.name);
    lemma_filter_contains(tools, b, tool);
}

/// What the model is shown is what its code can call: a tool that is found goes through
/// the bridge while there is budget, and one that is left out is denied.
pub proof fn law_found_tools_are_the_callable_ones(
    guard: GuardState,
    server: Seq<char>,
    tools: Seq<ToolView>,
    tool: ToolView,
)
    requires
        tools.contains(tool),
        guard.used < guard.max_calls,
    ensures
        exposed_tools(guard.allow, server, tools).contains(tool) <==> runtime::admitted(
            guard,
            server,
            tool.name,
        ).1 is Ok,
        !exposed_tools(guard.allow, server, tools).contains(tool) ==> runtime::admitted(
            guard,
            server,
            tool.name,
        ).1 == Err::<(), Refusal>(Refusal::Denied(server, tool.name)),
{
    let pred = |t: ToolView| source::permits(guard.allow, server, t.name);
    lemma_filter_contains(tools, pred, tool);
}

proof fn lemma_filter_contains<A>(s: Seq<A>, pred: spec_fn(A) -> bool, x: A)
    ensures
        s.filter(pred).contains(x) <==> s.contains(x) && pred(x),
    decreases s.len(),
{
    reveal(Seq::filter);
    if s.len() > 0 {
        let rest = s.drop_last();
        let kept = rest.filter(pred);
        lemma_filter_contains(rest, pred, x);
        if s.contains(x) && pred(x) {
            let i = choose|i: int| 0 <= i < s.len() && s[i] == x;
            if i < s.len() - 1 {
                assert(rest[i] == x);
                let k = choose|k: int| 0 <= k < kept.len() && kept[k] == x;
                assert(s.filter(pred)[k] == x);
            } else {
                assert(s.filter(pred).last() == x);
            }
        }
        if s.filter(pred).contains(x) {
            let k = choose|k: int| 0 <= k < s.filter(pred).len() && s.filter(pred)[k] == x;
            if k < kept.len() {
                assert(kept[k] == x);
                let i = choose|i: int| 0 <= i < rest.len() && rest[i] == x;
                assert(s[i] == x);
            } else {
                assert(s.last() == x);
            }
        }
    }
}

/// The outcome of an execution whose servers could not be listed.
pub fn listing_failed(error: &Error) -> (outcome: Outcome)
    ensures
        json::json_view(outcome.result) == Json::Null,
        outcome.logs@.len() == 0,
        outcome.error is Some,
        outcome.error->0@ == Fault::Exception(crate::error::error_text(*error)),
{
    Outcome::failed(ExecError::Exception { message: error.message() }, Vec::new())
}

/// The outcome of an execution that panicked. A panic becomes a failed outcome instead
/// of a missing reply, which the caller would misread as a dead island.
pub fn panicked() -> (outcome: Outcome)
    ensures
        json::json_view(outcome.result) == Json::Null,
        outcome.logs@.len() == 0,
        outcome.error is Some,
        outcome.error->0@ == Fault::Exception("internal error: execution panicked"@),
{
    Outcome::failed(
        ExecError::Exception { message: "internal error: execution panicked".to_owned() },
        Vec::new(),
    )
}

/// Fluent constructor of an engine's [`Plan`]. `H` is what runs for a local tool.
#[derive(Debug)]
pub struct CodeModeBuilder<H> {
    servers: Vec<ServerConfig>,
    local: Vec<LocalTools<H>>,
    limits: Limits,
    max_concurrent: usize,
}

/// Everything an engine is started with.
#[derive(Debug)]
pub struct Plan<H> {
    /// The MCP servers to launch.
    pub servers: Vec<ServerConfig>,
    /// The local tool groups.
    pub local: Vec<LocalTools<H>>,
    /// What the model's code can reach.
    pub allow: AllowList,
    /// The limits of each execution.
    pub limits: Limits,
    /// How many executions run at once; at least one.
    pub max_concurrent: usize,
}

/// What a server's configuration lets the model's code reach of it.
pub open spec fn reach_of(plan: ServerPlan) -> Reach {
    match plan.allow {
        Some(tools) => Reach::Only(tools.to_set()),
        None => Reach::All,
    }
}

/// What the first `n` server configurations let the model's code reach.
pub open spec fn allow_of_servers(plans: Seq<ServerPlan>, n: nat) -> Map<Seq<char>, Reach>
    decreases n,
{
    if n == 0 {
        Map::empty()
    } else {
        allow_of_servers(plans, (n - 1) as nat).insert(plans[n - 1].name, reach_of(plans[n - 1]))
    }
}

/// The names of a local group's tools.
pub open spec fn local_tool_names<H>(group: LocalTools<H>) -> Seq<Seq<char>> {
    group.registered().map_values(|t: ToolView| t.name)
}

/// What the servers and the first `n` local groups let the model's code reach.
pub open spec fn allow_of<H>(plans: Seq<ServerPlan>, local: Seq<LocalTools<H>>, n: nat) -> Map<
    Seq<char>,
    Reach,
>
    decreases n,
{
    if n == 0 {
        allow_of_servers(plans, plans.len())
    } else {
        allow_of(plans, local, (n - 1) as nat).insert(
            local[n - 1].name(),
            Reach::Only(local_tool_names(local[n - 1]).to_set()),
        )
    }
}

/// The names of all servers: the MCP servers, then the local groups.
pub open spec fn all_names<H>(plans: Seq<ServerPlan>, local: Seq<LocalTools<H>>) -> Seq<Seq<char>> {
    plans.map_values(|p: ServerPlan| p.name) + local.map_values(|g: LocalTools<H>| g.name())
}

/// The position of the first of the first `n` names that stood there before.
pub open spec fn first_repeat(names: Seq<Seq<char>>, n: nat) -> Option<int>
    decreases n,
{
    if n == 0 {
        None
    } else {
        match first_repeat(names, (n - 1) as nat) {
            Some(i) => Some(i),
            None => if names.take(n - 1).contains(names[n - 1]) {
                Some(n - 1)
            } else {
                None
            },
        }
    }
}

/// The message for a server name that is configured twice.
pub open spec fn duplicate_text(name: Seq<char>) -> Seq<char> {
    "duplicate server '"@ + name + "'"@
}

impl<H> CodeModeBuilder<H> {
    /// The MCP servers so far.
    pub closed spec fn server_plans(self) -> Seq<ServerPlan> {
        config::plans(self.servers@)
    }

    /// The local groups so far.
    pub closed spec fn groups(self) -> Seq<LocalTools<H>> {
        self.local@
    }

    /// The limits so far.
    pub closed spec fn chosen_limits(self) -> Limits {
        self.limits
    }

    /// The ceiling on executions running at once so far.
    pub closed spec fn chosen_max_concurrent(self) -> nat {
        self.max_concurrent as nat
    }

    /// A builder without servers, with default limits.
    pub fn new() -> (builder: Self)
        ensures
            builder.server_plans() == Seq::<ServerPlan>::empty(),
            builder.groups() == Seq::<LocalTools<H>>::empty(),
            types::is_default_limits(builder.chosen_limits()),
            builder.chosen_max_concurrent() == DEFAULT_MAX_CONCURRENT,
    {
        let builder: CodeModeBuilder<H> = CodeModeBuilder {
            servers: Vec::new(),
            local: Vec::new(),
            limits: Limits::default(),
            max_concurrent: DEFAULT_MAX_CONCURRENT,
        };
        assert(builder.server_plans() =~= Seq::empty());
        builder
    }

    /// Caps how many executions run at once on the island (default 16). Further calls
    /// queue for a slot. Each running execution holds a JS context, so this bounds
    /// memory under a flood of calls.
    pub fn max_concurrent_executions(self, max: usize) -> (builder: Self)
        ensures
            builder.server_plans() == self.server_plans(),
            builder.groups() == self.groups(),
            builder.chosen_limits() == self.chosen_limits(),
            builder.chosen_max_concurrent() == max,
    {
        let mut builder: CodeModeBuilder<H> = self;
        builder.max_concurrent = max;
        builder
    }

    /// Exposes a group of local tools as a virtual server.
    pub fn local_tools(self, tools: LocalTools<H>) -> (builder: Self)
        ensures
            builder.server_plans() == self.server_plans(),
            builder.groups() == self.groups().push(tools),
            builder.chosen_limits() == self.chosen_limits(),
            builder.chosen_max_concurrent() == self.chosen_max_concurrent(),
    {
        let mut builder: CodeModeBuilder<H> = self;
        builder.local.push(tools);
        builder
    }

    /// Adds an MCP server.
    pub fn server(self, server: ServerConfig) -> (builder: Self)
        ensures
            builder.server_plans() == self.server_plans().push(server@),
            builder.groups() == self.groups(),
            builder.chosen_limits() == self.chosen_limits(),
            builder.chosen_max_concurrent() == self.chosen_max_concurrent(),
    {
        let mut builder: CodeModeBuilder<H> = self;
        builder.servers.push(server);
        assert(builder.server_plans() =~= self.server_plans().push(server@));
        builder
    }

    /// Adds several MCP servers.
    pub fn servers(self, servers: Vec<ServerConfig>) -> (builder: Self)
        ensures
            builder.server_plans() == self.server_plans() + config::plans(servers@),
            builder.groups() == self.groups(),
            builder.chosen_limits() == self.chosen_limits(),
            builder.chosen_max_concurrent() == self.chosen_max_concurrent(),
    {
        let mut builder: CodeModeBuilder<H> = self;
        let mut servers: Vec<ServerConfig> = servers;
        let ghost added = servers@;
        builder.servers.append(&mut servers);
        assert(builder.server_plans() =~= self.server_plans() + config::plans(added));
        builder
    }

    /// Adds servers and limits from a loaded [`Config`].
    pub fn config(self, config: Config) -> (builder: Self)
        ensures
            builder.server_plans() == self.server_plans() + config::plans(config.servers@),
            builder.groups() == self.groups(),
            builder.chosen_limits() == config.limits,
            builder.chosen_max_concurrent() == self.chosen_max_concurrent(),
    {
        let Config { servers, limits } = config;
        self.servers(servers).limits(limits)
    }

    /// Sets the limits of each execution.
    pub fn limits(self, limits: Limits) -> (builder: Self)
        ensures
            builder.server_plans() == self.server_plans(),
            builder.groups() == self.groups(),
            builder.chosen_limits() == limits,
            builder.chosen_max_concurrent() == self.chosen_max_concurrent(),
    {
        let mut builder: CodeModeBuilder<H> = self;
        builder.limits = limits;
        builder
    }

    /// Sets the wall-clock timeout of each execution and leaves the other limits.
    pub fn timeout(self, timeout: Duration) -> (builder: Self)
        ensures
            builder.server_plans() == self.server_plans(),
            builder.groups() == self.groups(),
            builder.chosen_limits() == (Limits { timeout, ..self.chosen_limits() }),
            builder.chosen_max_concurrent() == self.chosen_max_concurrent(),
    {
        let mut builder: CodeModeBuilder<H> = self;
        builder.limits.timeout = timeout;
        builder
    }

    fn names(&self) -> (names: Vec<String>)
        ensures
            text::texts(names@) == all_names(self.server_plans(), self.groups()),
    {
        let mut names: Vec<String> = Vec::new();
        let mut i: usize = 0;
        while i < self.servers.len()
            invariant
                i <= self.servers@.len(),
                names@.len() == i,
                forall|j: int| 0 <= j < i ==> (#[trigger] names@[j])@ == self.servers@[j]@.name,
            decreases self.servers@.len() - i,
        {
            names.push(self.servers[i].name.clone());
            i = i + 1;
        }
        let mut k: usize = 0;
        let ghost count = self.servers@.len();
        while k < self.local.len()
            invariant
                count == self.servers@.len(),
                k <= self.local@.len(),
                names@.len() == count + k,
                forall|j: int| 0 <= j < count ==> (#[trigger] names@[j])@ == self.servers@[j]@.name,
                forall|j: int|
                    count <= j < count + k ==> (#[trigger] names@[j])@ == self.local@[j
                        - count].name(),
            decreases self.local@.len() - k,
        {
            names.push(self.local[k].server().to_owned());
            k = k + 1;
        }
        assert(text::texts(names@) =~= all_names(self.server_plans(), self.groups()));
        names
    }

    /// What the engine is to be started with. A server name that is configured twice
    /// is refused: it would be unclear whose tools it stands for.
    pub fn build(self) -> (plan: Result<Plan<H>, Error>)
        ensures
            ({
                let names = all_names(self.server_plans(), self.groups());
                match first_repeat(names, names.len()) {
                    Some(i) => plan matches Err(Error::Config(message)) && message@
                        == duplicate_text(names[i]),
                    None => {
                        &&& plan is Ok
                        &&& config::plans(plan->Ok_0.servers@) == self.server_plans()
                        &&& plan->Ok_0.local@ == self.groups()
                        &&& plan->Ok_0.limits == self.chosen_limits()
                        &&& plan->Ok_0.max_concurrent == if self.chosen_max_concurrent() == 0 {
                            1
                        } else {
                            self.chosen_max_concurrent()
                        }
                        &&& plan->Ok_0.allow@ == allow_of(
                            self.server_plans(),
                            self.groups(),
                            self.groups().len(),
                        )
                    },
                }
            }),
    {
        let names: Vec<String> = self.names();
        match repeated(&names) {
            Some(i) => {
                let mut message: String = String::new();
                message.push_str("duplicate server '");
                message.push_str(names[i].as_str());
                message.push_str("'");
                assert(message@ =~= duplicate_text(text::texts(names@)[i as int]));
                return Err(Error::Config(message));
            },
            None => {},
        }
        let allow: AllowList = self.allowlist();
        let max_concurrent: usize = if self.max_concurrent == 0 {
            1
        } else {
            self.max_concurrent
        };
        Ok(
            Plan {
                servers: self.servers,
                local: self.local,
                allow,
                limits: self.limits,
                max_concurrent,
            },
        )
    }

    fn allowlist(&self) -> (allow: AllowList)
        ensures
            allow@ == allow_of(self.server_plans(), self.groups(), self.groups().len()),
    {
        let ghost plans = self.server_plans();
        let mut allow: AllowList = AllowList::default();
        let mut i: usize = 0;
        while i < self.servers.len()
            invariant
                plans == self.server_plans(),
                i <= self.servers@.len(),
                allow@ == allow_of_servers(plans, i as nat),
            decreases self.servers@.len() - i,
        {
            let server: &ServerConfig = &self.servers[i];
            assert(plans[i as int] == server@);
            let name: String = server.name.clone();
            match &server.allow {
                Some(tools) => {
                    let tools: Vec<String> = copy_texts(tools);
                    allow.allow(name, tools);
                },
                None => {
                    allow.allow_all(name);
                },
            }
            i = i + 1;
        }
        let mut k: usize = 0;
        while k < self.local.len()
            invariant
                plans == self.server_plans(),
                k <= self.local@.len(),
                allow@ == allow_of(plans, self.local@, k as nat),
            decreases self.local@.len() - k,
        {
            let group: &LocalTools<H> = &self.local[k];
            allow.allow(group.server().to_owned(), group.tool_names());
            k = k + 1;
        }
        allow
    }
}

fn copy_texts(list: &Vec<String>) -> (copy: Vec<String>)
    ensures
        text::texts(copy@) == text::texts(list@),
{
    let mut copy: Vec<String> = Vec::new();
    let mut i: usize = 0;
    while i < list.len()
        invariant
            i <= list@.len(),
            copy@.len() == i,
            forall|j: int| 0 <= j < i ==> (#[trigger] copy@[j])@ == list@[j]@,
        decreases list@.len() - i,
    {
        copy.push(list[i].clone());
        i = i + 1;
    }
    assert(text::texts(copy@) =~= text::texts(list@));
    copy
}

fn repeated(names: &Vec<String>) -> (at: Option<usize>)
    ensures
        match first_repeat(text::texts(names@), names@.len()) {
            Some(i) => at is Some && at->0 == i && 0 <= i < names@.len(),
            None => at is None,
        },
{
    let ghost views = text::texts(names@);
    let mut n: usize = 0;
    while n < names.len()
        invariant
            views == text::texts(names@),
            n <= names@.len(),
            first_repeat(views, n as nat) is None,
        decreases names@.len() - n,
    {
        let mut i: usize = 0;
        while i < n
            invariant
                views == text::texts(names@),
                i <= n < names@.len(),
                first_repeat(views, n as nat) is None,
                forall|j: int| 0 <= j < i ==> #[trigger] views[j] != views[n as int],
            decreases n - i,
        {
            if text::same(names[i].as_str(), names[n].as_str()) {
                proof {
                    assert(views.take(n as int)[i as int] == views[n as int]);
                    assert(first_repeat(views, (n + 1) as nat) == Some(n as int));
                    lemma_first_repeat_stays(views, (n + 1) as nat, views.len());
                }
                return Some(n);
            }
            i = i + 1;
        }
        assert(!views.take(n as int).contains(views[n as int]));
        n = n + 1;
    }
    None
}

proof fn lemma_first_repeat_stays(names: Seq<Seq<char>>, n: nat, m: nat)
    requires
        n <= m,
        first_repeat(names, n) is Some,
    ensures
        first_repeat(names, m) == first_repeat(names, n),
    decreases m - n,
{
    if n < m {
        lemma_first_repeat_stays(names, n, (m - 1) as nat);
    }
}

proof fn lemma_no_repeat(names: Seq<Seq<char>>, n: nat, i: int, j: int)
    requires
        first_repeat(names, n) is None,
        0 <= i < j < n <= names.len(),
    ensures
        names[i] != names[j],
    decreases n,
{
    if j == n - 1 {
        assert(names.take(n - 1)[i] == names[i]);
    } else {
        lemma_no_repeat(names, (n - 1) as nat, i, j);
    }
}

proof fn lemma_allow_of_servers(plans: Seq<ServerPlan>, n: nat, name: Seq<char>)
    requires
        n <= plans.len(),
        forall|i: int, j: int|
            0 <= i < j < plans.len() ==> (#[trigger] plans[i]).name != (#[trigger] plans[j]).name,
    ensures
        allow_of_servers(plans, n).dom().contains(name) <==> exists|i: int|
            0 <= i < n && (#[trigger] plans[i]).name == name,
        forall|i: int|
            0 <= i < n && (#[trigger] plans[i]).name == name ==> allow_of_servers(plans, n)[name]
                == reach_of(plans[i]),
    decreases n,
{
    if n > 0 {
        lemma_allow_of_servers(plans, (n - 1) as nat, name);
        if plans[n - 1].name == name {
            assert(allow_of_servers(plans, n).dom().contains(name));
        } else if allow_of_servers(plans, n).dom().contains(name) {
            let i = choose|i: int| 0 <= i < n - 1 && (#[trigger] plans[i]).name == name;
            assert(plans[i].name == name);
        }
    }
}

proof fn lemma_allow_of<H>(
    plans: Seq<ServerPlan>,
    local: Seq<LocalTools<H>>,
    n: nat,
    name: Seq<char>,
)
    requires
        n <= local.len(),
        forall|i: int, j: int|
            0 <= i < j < local.len() ==> (#[trigger] local[i]).name() != (
            #[trigger] local[j]).name(),
    ensures
        allow_of(plans, local, n).dom().contains(name) <==> allow_of_servers(
            plans,
            plans.len(),
        ).dom().contains(name) || exists|k: int| 0 <= k < n && (#[trigger] local[k]).name() == name,
        forall|k: int|
            0 <= k < n && (#[trigger] local[k]).name() == name ==> allow_of(plans, local, n)[name]
                == Reach::Only(local_tool_names(local[k]).to_set()),
        (forall|k: int| 0 <= k < n ==> (#[trigger] local[k]).name() != name) ==> allow_of(
            plans,
            local,
            n,
        )[name] == allow_of_servers(plans, plans.len())[name],
    decreases n,
{
    if n > 0 {
        lemma_allow_of(plans, local, (n - 1) as nat, name);
        if local[n - 1].name() == name {
            assert(allow_of(plans, local, n).dom().contains(name));
        } else if allow_of(plans, local, n).dom().contains(name) {
            if !allow_of_servers(plans, plans.len()).dom().contains(name) {
                let k = choose|k: int| 0 <= k < n - 1 && (#[trigger] local[k]).name() == name;
                assert(local[k].name() == name);
            }
        }
    }
}

/// An engine exposes exactly what it was configured with: of an MCP server its allowed
/// tools, or all of them where nothing was said; of a local group the tools that
/// were registered; and no other server.
pub proof fn law_plan_exposes_what_was_configured<H>(
    plans: Seq<ServerPlan>,
    local: Seq<LocalTools<H>>,
    server: Seq<char>,
    tool: Seq<char>,
)
    requires
        first_repeat(all_names(plans, local), all_names(plans, local).len()) is None,
    ensures
        source::permits(allow_of(plans, local, local.len()), server, tool) <==> {
            ||| exists|i: int|
                0 <= i < plans.len() && (#[trigger] plans[i]).name == server && match plans[i].allow {
                    Some(tools) => tools.contains(tool),
                    None => true,
                }
            ||| exists|k: int|
                0 <= k < local.len() && (#[trigger] local[k]).name() == server
                    && local_tool_names(local[k]).contains(tool)
        },
{
    let names = all_names(plans, local);
    let count = plans.len() as int;
    assert forall|i: int, j: int| 0 <= i < j < plans.len() implies (#[trigger] plans[i]).name != (
    #[trigger] plans[j]).name by {
        lemma_no_repeat(names, names.len(), i, j);
        assert(names[i] == plans[i].name && names[j] == plans[j].name);
    }
    assert forall|i: int, j: int| 0 <= i < j < local.len() implies (#[trigger] local[i]).name() != (
    #[trigger] local[j]).name() by {
        lemma_no_repeat(names, names.len(), count + i, count + j);
        assert(names[count + i] == local[i].name() && names[count + j] == local[j].name());
    }
    assert forall|i: int, k: int| 0 <= i < plans.len() && 0 <= k < local.len() implies (
    #[trigger] plans[i]).name != (#[trigger] local[k]).name() by {
        lemma_no_repeat(names, names.len(), i, count + k);
        assert(names[i] == plans[i].name && names[count + k] == local[k].name());
    }
    lemma_allow_of_servers(plans, plans.len(), server);
    lemma_allow_of(plans, local, local.len(), server);
    let allow = allow_of(plans, local, local.len());
    if exists|k: int| 0 <= k < local.len() && (#[trigger] local[k]).name() == server {
        let k = choose|k: int| 0 <= k < local.len() && (#[trigger] local[k]).name() == server;
        assert(allow[server] == Reach::Only(local_tool_names(local[k]).to_set()));
        assert forall|i: int| 0 <= i < plans.len() implies (#[trigger] plans[i]).name != server by {
            assert(plans[i].name != local[k].name());
        }
        assert forall|j: int| 0 <= j < local.len() && (#[trigger] local[j]).name() == server implies j
            == k by {
            if j < k {
                assert(local[j].name() != local[k].name());
            } else if k < j {
                assert(local[k].name() != local[j].name());
            }
        }
    } else if exists|i: int| 0 <= i < plans.len() && (#[trigger] plans[i]).name == server {
        let i = choose|i: int| 0 <= i < plans.len() && (#[trigger] plans[i]).name == server;
        assert(allow[server] == reach_of(plans[i]));
        assert forall|j: int| 0 <= j < plans.len() && (#[trigger] plans[j]).name == server implies j
            == i by {
            if j < i {
                assert(plans[j].name != plans[i].name);
            } else if i < j {
                assert(plans[i].name != plans[j].name);
            }
        }
    }
}

/// A standard JSON file restricts nothing: every server in it exposes all its tools.
pub proof fn law_mcp_json_exposes_every_tool(servers: Seq<(String, McpJsonServer)>, i: int)
    requires
        0 <= i < servers.len(),
    ensures
        reach_of(config::mcp_json_plans(servers)[i]) == Reach::All,
        config::mcp_json_plans(servers)[i].name == servers[i].0@,
{
}

/// The executions of an engine: how many are running, and which are waiting for a slot,
/// in the order in which they came. Each waits under a ticket of its own.
#[derive(Debug)]
pub struct Island {
    running: usize,
    waiting: Vec<u64>,
    max_concurrent: usize,
    draining: bool,
}

/// The state of an [`Island`].
#[verifier::ext_equal]
pub struct IslandState {
    pub running: nat,
    pub waiting: Seq<u64>,
    pub max_concurrent: nat,
    pub draining: bool,
}

/// No more executions run than there are slots, and none waits while a slot is free.
pub open spec fn well_filled(island: IslandState) -> bool {
    &&& island.running <= island.max_concurrent
    &&& island.waiting.len() > 0 ==> island.running == island.max_concurrent
    &&& island.max_concurrent > 0
}

/// Nothing is left to do: the engine is winding down and no execution is left.
pub open spec fn drained(island: IslandState) -> bool {
    island.draining && island.running == 0 && island.waiting.len() == 0
}

/// The island after an execution came in. It starts if a slot is free.
pub open spec fn submitted(island: IslandState, ticket: u64) -> (IslandState, bool) {
    if island.running < island.max_concurrent {
        (IslandState { running: island.running + 1, ..island }, true)
    } else {
        (IslandState { waiting: island.waiting.push(ticket), ..island }, false)
    }
}

/// The island after an execution ended. The one that has waited longest takes its
/// slot. Where nothing runs, nothing can end.
pub open spec fn ended(island: IslandState) -> (IslandState, Option<u64>) {
    if island.waiting.len() > 0 {
        (IslandState { waiting: island.waiting.skip(1), ..island }, Some(island.waiting[0]))
    } else if island.running == 0 {
        (island, None)
    } else {
        (IslandState { running: (island.running - 1) as nat, ..island }, None)
    }
}

impl View for Island {
    type V = IslandState;

    closed spec fn view(&self) -> IslandState {
        IslandState {
            running: self.running as nat,
            waiting: self.waiting@,
            max_concurrent: self.max_concurrent as nat,
            draining: self.draining,
        }
    }
}

impl Island {
    #[verifier::type_invariant]
    spec fn filled(self) -> bool {
        well_filled(self@)
    }

    /// An island on which nothing runs. It has at least one slot.
    pub fn new(max_concurrent: usize) -> (island: Island)
        ensures
            island@ == (IslandState {
                running: 0,
                waiting: Seq::empty(),
                max_concurrent: if max_concurrent == 0 {
                    1
                } else {
                    max_concurrent as nat
                },
                draining: false,
            }),
            well_filled(island@),
    {
        let max_concurrent: usize = if max_concurrent == 0 {
            1
        } else {
            max_concurrent
        };
        Island { running: 0, waiting: Vec::new(), max_concurrent, draining: false }
    }

    /// Takes on an execution: whether it is to start now. Otherwise it waits under its
    /// ticket.
    pub fn submit(&mut self, ticket: u64) -> (starts: bool)
        ensures
            final(self)@ == submitted(old(self)@, ticket).0,
            starts == submitted(old(self)@, ticket).1,
            well_filled(final(self)@),
    {
        proof {
            use_type_invariant(&*self);
        }
        if self.running < self.max_concurrent {
            self.running = self.running + 1;
            true
        } else {
            let mut waiting: Vec<u64> = self.take_waiting();
            waiting.push(ticket);
            self.waiting = waiting;
            false
        }
    }

    fn take_waiting(&mut self) -> (waiting: Vec<u64>)
        ensures
            waiting@ == old(self)@.waiting,
            final(self)@ == (IslandState { waiting: Seq::empty(), ..old(self)@ }),
    {
        proof {
            use_type_invariant(&*self);
        }
        let mut rest: Island = Island {
            running: self.running,
            waiting: Vec::new(),
            max_concurrent: self.max_concurrent,
            draining: self.draining,
        };
        std::mem::swap(self, &mut rest);
        rest.waiting
    }

    /// Notes that an execution ended: which of the waiting ones is to start now.
    pub fn finish(&mut self) -> (next: Option<u64>)
        ensures
            final(self)@ == ended(old(self)@).0,
            next == ended(old(self)@).1,
            well_filled(final(self)@),
    {
        proof {
            use_type_invariant(&*self);
        }
        if self.waiting.len() > 0 {
            let mut waiting: Vec<u64> = self.take_waiting();
            let ghost before = waiting@;
            let ticket: u64 = waiting.remove(0);
            assert(waiting@ =~= before.skip(1));
            self.waiting = waiting;
            Some(ticket)
        } else {
            if self.running > 0 {
                self.running = self.running - 1;
            }
            None
        }
    }

    /// Starts winding down: what was taken on still runs to its end.
    pub fn drain(&mut self)
        ensures
            final(self)@ == (IslandState { draining: true, ..old(self)@ }),
            well_filled(final(self)@),
    {
        proof {
            use_type_invariant(&*self);
        }
        self.draining = true;
    }

    /// Whether the engine has wound down, so that its connections can be cancelled.
    pub fn is_drained(&self) -> (done: bool)
        ensures
            done == drained(self@),
    {
        self.draining && self.running == 0 && self.waiting.len() == 0
    }
}

/// An island after `k` of its executions ended, one after another, with the tickets that
/// started meanwhile.
pub open spec fn after_endings(island: IslandState, k: nat) -> (IslandState, Seq<u64>)
    decreases k,
{
    if k == 0 {
        (island, Seq::empty())
    } else {
        let (before, started) = after_endings(island, (k - 1) as nat);
        let (after, next) = ended(before);
        (
            after,
            match next {
                Some(ticket) => started.push(ticket),
                None => started,
            },
        )
    }
}

proof fn lemma_after_endings(island: IslandState, k: nat)
    requires
        well_filled(island),
        k <= island.running + island.waiting.len(),
    ensures
        ({
            let (after, started) = after_endings(island, k);
            let waited = island.waiting.len();
            &&& well_filled(after)
            &&& after.draining == island.draining
            &&& after.max_concurrent == island.max_concurrent
            &&& k <= waited ==> started == island.waiting.take(k as int) && after.waiting
                == island.waiting.skip(k as int) && after.running == island.running
            &&& k > waited ==> started == island.waiting && after.waiting.len() == 0
                && after.running == island.running - (k - waited)
        }),
    decreases k,
{
    if k == 0 {
        assert(island.waiting.take(0) =~= Seq::<u64>::empty());
        assert(island.waiting.skip(0) =~= island.waiting);
    } else {
        lemma_after_endings(island, (k - 1) as nat);
        let (before, started) = after_endings(island, (k - 1) as nat);
        let waited = island.waiting.len();
        if k <= waited {
            assert(before.waiting[0] == island.waiting[k - 1]);
            assert(island.waiting.take(k as int) =~= island.waiting.take(k - 1).push(
                island.waiting[k - 1],
            ));
            assert(before.waiting.skip(1) =~= island.waiting.skip(k as int));
        } else {
            assert(island.waiting.take(waited as int) =~= island.waiting);
        }
    }
}

/// Once an engine winds down, every execution that was taken on still runs, in the
/// order in which they came, and the engine is done exactly when as many have ended
/// as were running or waiting.
pub proof fn law_draining_runs_everything_taken_on(island: IslandState, k: nat)
    requires
        well_filled(island),
        island.draining,
        k <= island.running + island.waiting.len(),
    ensures
        drained(after_endings(island, k).0) <==> k == island.running + island.waiting.len(),
        drained(after_endings(island, k).0) ==> after_endings(island, k).1 == island.waiting,
{
    lemma_after_endings(island, k);
    let (after, started) = after_endings(island, k);
    if drained(after) {
        assert(island.waiting.take(island.waiting.len() as int) =~= island.waiting);
    }
}

/// However executions come and end, no more run than there are slots, and none waits
/// while a slot is free.
pub proof fn law_slots_are_never_exceeded_nor_wasted(island: IslandState, ticket: u64)
    requires
        well_filled(island),
    ensures
        well_filled(submitted(island, ticket).0),
        well_filled(ended(island).0),
        submitted(island, ticket).1 <==> island.running < island.max_concurrent,
{
}

/// How many of the items have a property.
pub open spec fn count_of<A>(items: Seq<A>, pred: spec_fn(A) -> bool) -> nat
    decreases items.len(),
{
    if items.len() == 0 {
        0
    } else {
        count_of(items.drop_last(), pred) + (if pred(items.last()) {
            1nat
        } else {
            0nat
        })
    }
}

/// What is kept are the items that have a property, and no others: as many as there are,
/// each at the place given by how many of them come before it.
pub open spec fn are_those<A>(kept: Seq<A>, items: Seq<A>, pred: spec_fn(A) -> bool) -> bool {
    &&& kept.len() == count_of(items, pred)
    &&& forall|i: int|
        0 <= i < items.len() && pred(#[trigger] items[i]) ==> kept[count_of(
            items.take(i),
            pred,
        ) as int] == items[i]
}

proof fn lemma_count_of_take<A>(items: Seq<A>, pred: spec_fn(A) -> bool, i: int)
    requires
        0 <= i < items.len(),
        pred(items[i]),
    ensures
        count_of(items.take(i), pred) < count_of(items, pred),
    decreases items.len(),
{
    let rest = items.drop_last();
    if i < rest.len() {
        assert(rest.take(i) =~= items.take(i));
        lemma_count_of_take(rest, pred, i);
    } else {
        assert(items.take(i) =~= rest);
    }
}

proof fn lemma_filter_keeps_those<A>(items: Seq<A>, pred: spec_fn(A) -> bool)
    ensures
        are_those(items.filter(pred), items, pred),
    decreases items.len(),
{
    reveal(Seq::filter);
    if items.len() > 0 {
        let rest = items.drop_last();
        let kept = rest.filter(pred);
        lemma_filter_keeps_those(rest, pred);
        assert forall|i: int| 0 <= i < items.len() && pred(#[trigger] items[i]) implies items.filter(
            pred,
        )[count_of(items.take(i), pred) as int] == items[i] by {
            if i < rest.len() {
                assert(rest[i] == items[i]);
                assert(rest.take(i) =~= items.take(i));
                lemma_count_of_take(rest, pred, i);
            } else {
                assert(items.take(i) =~= rest);
            }
        }
    }
}

/// What is discovered are the exposed servers and what is found are the exposed tools:
/// all of them, none twice, in the order in which they were listed.
pub proof fn law_listings_keep_what_is_exposed(
    allow: Map<Seq<char>, Reach>,
    servers: Seq<ServerInfoView>,
    server: Seq<char>,
    tools: Seq<ToolView>,
)
    ensures
        are_those(
            exposed_infos(allow, servers),
            servers,
            |s: ServerInfoView| allow.dom().contains(s.name),
        ),
        are_those(
            exposed_tools(allow, server, tools),
            tools,
            |t: ToolView| source::permits(allow, server, t.name),
        ),
{
    lemma_filter_keeps_those(servers, |s: ServerInfoView| allow.dom().contains(s.name));
    lemma_filter_keeps_those(tools, |t: ToolView| source::permits(allow, server, t.name));
}

/// A listing that an execution gets to see: it succeeded, and its server is exposed.
pub open spec fn is_usable(allow: Map<Seq<char>, Reach>, listing: Listing) -> bool {
    listing.tools is Ok && allow.dom().contains(listing.server.name@)
}

proof fn lemma_exposed_listings(allow: Map<Seq<char>, Reach>, listings: Seq<Listing>, n: nat)
    requires
        n <= listings.len(),
    ensures
        ({
            let entries = exposed_listings(allow, listings, n);
            let usable = |l: Listing| is_usable(allow, l);
            &&& entries.len() == count_of(listings.take(n as int), usable)
            &&& forall|i: int|
                0 <= i < n && is_usable(allow, #[trigger] listings[i]) ==> {
                    let entry = entries[count_of(listings.take(i), usable) as int];
                    let server = listings[i].server.name@;
                    &&& entry.name == server
                    &&& entry.tools == exposed_tools(
                        allow,
                        server,
                        types::tool_views(listings[i].tools->Ok_0@),
                    )
                }
        }),
    decreases n,
{
    let usable = |l: Listing| is_usable(allow, l);
    if n > 0 {
        let m = (n - 1) as nat;
        lemma_exposed_listings(allow, listings, m);
        assert(listings.take(n as int).drop_last() =~= listings.take(m as int));
        assert forall|i: int| 0 <= i < m && is_usable(allow, #[trigger] listings[i]) implies count_of(
            listings.take(i),
            usable,
        ) < exposed_listings(allow, listings, m).len() by {
            assert(listings.take(m as int).take(i) =~= listings.take(i));
            lemma_count_of_take(listings.take(m as int), usable, i);
        }
    } else {
        assert(listings.take(0).len() == 0);
    }
}

/// An execution gets every exposed server that listed its tools, under its name and with
/// exactly its exposed tools, whatever the other listings are, in the order of the
/// listings; a server that failed to list them is missing, and so is nothing else.
pub proof fn law_working_servers_are_never_lost(
    allow: Map<Seq<char>, Reach>,
    listings: Seq<Listing>,
    i: int,
)
    ensures
        ({
            let entries = exposed_listings(allow, listings, listings.len());
            let usable = |l: Listing| l.tools is Ok && allow.dom().contains(l.server.name@);
            &&& entries.len() == count_of(listings, usable)
            &&& 0 <= i < listings.len() && usable(listings[i]) ==> {
                let server = listings[i].server.name@;
                let entry = entries[count_of(listings.take(i), usable) as int];
                &&& entry.name == server
                &&& are_those(
                    entry.tools,
                    types::tool_views(listings[i].tools->Ok_0@),
                    |t: ToolView| source::permits(allow, server, t.name),
                )
            }
        }),
{
    let usable = |l: Listing| l.tools is Ok && allow.dom().contains(l.server.name@);
    lemma_exposed_listings(allow, listings, listings.len());
    assert(usable =~= (|l: Listing| is_usable(allow, l)));
    assert(listings.take(listings.len() as int) =~= listings);
    if 0 <= i < listings.len() && usable(listings[i]) {
        assert(is_usable(allow, listings[i]));
        law_listings_keep_what_is_exposed(
            allow,
            Seq::empty(),
            listings[i].server.name@,
            types::tool_views(listings[i].tools->Ok_0@),
        );
    }
}

/// The names are those of the MCP servers and then those of the local groups, and a name
/// is refused exactly where it stood there before: the first such one, named in the
/// message. Distinct names are never refused.
pub proof fn law_only_repeated_names_are_refused<H>(
    plans: Seq<ServerPlan>,
    local: Seq<LocalTools<H>>,
    name: Seq<char>,
)
    ensures
        ({
            let names = all_names(plans, local);
            &&& names.len() == plans.len() + local.len()
            &&& forall|i: int| 0 <= i < plans.len() ==> #[trigger] names[i] == plans[i].name
            &&& forall|i: int|
                plans.len() <= i < names.len() ==> #[trigger] names[i] == local[i
                    - plans.len()].name()
            &&& match first_repeat(names, names.len()) {
                Some(i) => {
                    &&& 0 <= i < names.len()
                    &&& exists|j: int| 0 <= j < i && #[trigger] names[j] == names[i]
                    &&& forall|a: int, b: int|
                        0 <= a < b < i ==> #[trigger] names[a] != #[trigger] names[b]
                },
                None => forall|a: int, b: int|
                    0 <= a < b < names.len() ==> #[trigger] names[a] != #[trigger] names[b],
            }
        }),
        duplicate_text(name) == "duplicate server '"@ + name + "'"@,
{
    let names = all_names(plans, local);
    lemma_first_repeat(names, names.len());
}

proof fn lemma_first_repeat(names: Seq<Seq<char>>, n: nat)
    requires
        n <= names.len(),
    ensures
        match first_repeat(names, n) {
            Some(i) => {
                &&& 0 <= i < n
                &&& exists|j: int| 0 <= j < i && #[trigger] names[j] == names[i]
                &&& forall|a: int, b: int|
                    0 <= a < b < i ==> #[trigger] names[a] != #[trigger] names[b]
            },
            None => forall|a: int, b: int|
                0 <= a < b < n ==> #[trigger] names[a] != #[trigger] names[b],
        },
    decreases n,
{
    if n > 0 {
        let m = n - 1;
        lemma_first_repeat(names, m as nat);
        if first_repeat(names, m as nat) is None {
            if names.take(m).contains(names[m]) {
                let j = choose|j: int| 0 <= j < m && names.take(m)[j] == names[m];
                assert(names[j] == names[m]);
            } else {
                assert forall|a: int, b: int| 0 <= a < b < n implies #[trigger] names[a]
                    != #[trigger] names[b] by {
                    if b == m {
                        assert(names.take(m)[a] == names[a]);
                    }
                }
            }
        }
    }
}

/// A server is exposed at all exactly where it was configured: an MCP server whatever its
/// allowed tools are, and a local group whatever it holds.
pub proof fn law_every_configured_server_is_exposed<H>(
    plans: Seq<ServerPlan>,
    local: Seq<LocalTools<H>>,
    server: Seq<char>,
)
    ensures
        allow_of(plans, local, local.len()).dom().contains(server) <==> {
            ||| exists|i: int| 0 <= i < plans.len() && (#[trigger] plans[i]).name == server
            ||| exists|k: int| 0 <= k < local.len() && (#[trigger] local[k]).name() == server
        },
{
    lemma_servers_dom(plans, plans.len(), server);
    lemma_local_dom(plans, local, local.len(), server);
}

proof fn lemma_servers_dom(plans: Seq<ServerPlan>, n: nat, server: Seq<char>)
    requires
        n <= plans.len(),
    ensures
        allow_of_servers(plans, n).dom().contains(server) <==> exists|i: int|
            0 <= i < n && (#[trigger] plans[i]).name == server,
    decreases n,
{
    if n > 0 {
        lemma_servers_dom(plans, (n - 1) as nat, server);
        if plans[n - 1].name == server {
            assert(allow_of_servers(plans, n).dom().contains(server));
        } else if allow_of_servers(plans, n).dom().contains(server) {
            let i = choose|i: int| 0 <= i < n - 1 && (#[trigger] plans[i]).name == server;
            assert(plans[i].name == server);
        }
    }
}

proof fn lemma_local_dom<H>(
    plans: Seq<ServerPlan>,
    local: Seq<LocalTools<H>>,
    n: nat,
    server: Seq<char>,
)
    requires
        n <= local.len(),
    ensures
        allow_of(plans, local, n).dom().contains(server) <==> {
            ||| allow_of_servers(plans, plans.len()).dom().contains(server)
            ||| exists|k: int| 0 <= k < n && (#[trigger] local[k]).name() == server
        },
    decreases n,
{
    if n > 0 {
        lemma_local_dom(plans, local, (n - 1) as nat, server);
        if local[n - 1].name() == server {
            assert(allow_of(plans, local, n).dom().contains(server));
        } else if allow_of(plans, local, n).dom().contains(server)
            && !allow_of_servers(plans, plans.len()).dom().contains(server) {
            let k = choose|k: int| 0 <= k < n - 1 && (#[trigger] local[k]).name() == server;
            assert(local[k].name() == server);
        }
    }
}

/// An execution that comes in starts at once where a slot is free. Otherwise it waits
/// behind all that came before it, and starts after exactly those have started.
pub proof fn law_executions_start_in_order_of_arrival(island: IslandState, ticket: u64)
    requires
        well_filled(island),
    ensures
        ({
            let (after, starts) = submitted(island, ticket);
            &&& after.max_concurrent == island.max_concurrent && after.draining == island.draining
            &&& starts <==> island.running < island.max_concurrent
            &&& starts ==> after.running == island.running + 1 && after.waiting == island.waiting
            &&& !starts ==> after.running == island.running && after_endings(
                after,
                island.waiting.len() + 1,
            ).1 == island.waiting.push(ticket)
        }),
{
    let (after, starts) = submitted(island, ticket);
    if !starts {
        lemma_after_endings(after, island.waiting.len() + 1);
        assert(after.waiting.take(after.waiting.len() as int) =~= after.waiting);
    }
}

/// An execution that ends gives its slot to the one that has waited longest, or frees it
/// where none waits.
pub proof fn law_slots_are_handed_on(island: IslandState)
    requires
        well_filled(island),
        island.running > 0,
    ensures
        ({
            let (after, next) = ended(island);
            &&& after.max_concurrent == island.max_concurrent && after.draining == island.draining
            &&& island.waiting.len() > 0 ==> next == Some(island.waiting[0]) && after.running
                == island.running && seq![island.waiting[0]] + after.waiting == island.waiting
            &&& island.waiting.len() == 0 ==> next is None && after.running == island.running - 1
                && after.waiting.len() == 0
        }),
{
    if island.waiting.len() > 0 {
        assert(seq![island.waiting[0]] + island.waiting.skip(1) =~= island.waiting);
    }
}

/// An engine has wound down exactly where it was told to and nothing runs or waits any
/// more.
pub proof fn law_wound_down_means_nothing_is_left(island: IslandState)
    ensures
        island.draining && island.running + island.waiting.len() == 0 ==> drained(island),
        drained(island) ==> island.draining && island.running + island.waiting.len() == 0,
{
}

/// The tools of a local group are exposed under the names that they were registered with.
pub proof fn law_local_tools_keep_their_names<H>(group: LocalTools<H>, i: int)
    requires
        0 <= i < group.registered().len(),
    ensures
        local_tool_names(group).len() == group.registered().len(),
        local_tool_names(group)[i] == group.registered()[i].name,
{
}

/// No more executions run than there are slots, of which there is at least one, and an
/// execution waits only while every slot is taken.
pub proof fn law_executions_wait_only_for_a_slot(island: IslandState)
    requires
        well_filled(island),
    ensures
        island.running <= island.max_concurrent,
        island.max_concurrent > 0,
        island.running < island.max_concurrent ==> island.waiting.len() == 0,
{
}

} // verus!
