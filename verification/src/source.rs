//! The allowlist: which tools of which servers a run can reach.

use vstd::prelude::*;

use crate::text;

verus! {

/// Deny-by-default set of `{server, tool}` pairs reachable in a run.
#[derive(Debug)]
pub struct AllowList {
    /// What was said of each server, in order. The last word on a server holds.
    servers: Vec<(String, Allowed)>,
}

#[derive(Debug)]
enum Allowed {
    All,
    Only(Vec<String>),
}

impl Clone for Allowed {
    fn clone(&self) -> (copy: Self)
        ensures
            copy@ == self@,
    {
        match self {
            Allowed::All => Allowed::All,
            Allowed::Only(tools) => {
                let copy: Vec<String> = tools.clone();
                assert(text::texts(copy@) =~= text::texts(tools@));
                Allowed::Only(copy)
            },
        }
    }
}

/// Which tools of a server are reachable.
pub enum Reach {
    All,
    Only(Set<Seq<char>>),
}

impl View for Allowed {
    type V = Reach;

    closed spec fn view(&self) -> Reach {
        match *self {
            Allowed::All => Reach::All,
            Allowed::Only(tools) => Reach::Only(text::texts(tools@).to_set()),
        }
    }
}

spec fn reach_of(servers: Seq<(String, Allowed)>) -> Map<Seq<char>, Reach>
    decreases servers.len(),
{
    if servers.len() == 0 {
        Map::empty()
    } else {
        reach_of(servers.drop_last()).insert(servers.last().0@, servers.last().1@)
    }
}

/// A list lets a run reach a tool of a server.
pub open spec fn permits(list: Map<Seq<char>, Reach>, server: Seq<char>, tool: Seq<char>) -> bool {
    list.dom().contains(server) && match list[server] {
        Reach::All => true,
        Reach::Only(tools) => tools.contains(tool),
    }
}

impl View for AllowList {
    type V = Map<Seq<char>, Reach>;

    closed spec fn view(&self) -> Map<Seq<char>, Reach> {
        reach_of(self.servers@)
    }
}

impl Clone for AllowList {
    fn clone(&self) -> (copy: Self)
        ensures
            copy@ == self@,
    {
        let mut servers: Vec<(String, Allowed)> = Vec::new();
        let mut i: usize = 0;
        assert(self.servers@.take(0) =~= servers@);
        while i < self.servers.len()
            invariant
                i <= self.servers@.len(),
                reach_of(servers@) == reach_of(self.servers@.take(i as int)),
            decreases self.servers@.len() - i,
        {
            let ghost before = servers@;
            let server: String = self.servers[i].0.clone();
            let allowed: Allowed = self.servers[i].1.clone();
            servers.push((server, allowed));
            assert(servers@.drop_last() =~= before);
            assert(self.servers@.take(i + 1).drop_last() =~= self.servers@.take(i as int));
            i = i + 1;
        }
        assert(self.servers@.take(i as int) =~= self.servers@);
        AllowList { servers }
    }
}

impl Default for AllowList {
    fn default() -> (list: Self)
        ensures
            list@ == Map::<Seq<char>, Reach>::empty(),
    {
        AllowList { servers: Vec::new() }
    }
}

impl AllowList {
    /// Exposes these tools of a server and no others.
    pub fn allow(&mut self, server: String, tools: Vec<String>)
        ensures
            final(self)@ == old(self)@.insert(
                server@,
                Reach::Only(text::texts(tools@).to_set()),
            ),
    {
        let ghost before = self.servers@;
        self.servers.push((server, Allowed::Only(tools)));
        assert(self.servers@.drop_last() =~= before);
    }

    /// Exposes every tool of a server.
    pub fn allow_all(&mut self, server: String)
        ensures
            final(self)@ == old(self)@.insert(server@, Reach::All),
    {
        let ghost before = self.servers@;
        self.servers.push((server, Allowed::All));
        assert(self.servers@.drop_last() =~= before);
    }

    /// Whether a run can reach this tool of this server.
    pub fn allows(&self, server: &str, tool: &str) -> (allowed: bool)
        ensures
            allowed == permits(self@, server@, tool@),
    {
        match self.last_word(server) {
            None => false,
            Some(i) => match &self.servers[i].1 {
                Allowed::All => true,
                Allowed::Only(tools) => includes(tools, tool),
            },
        }
    }

    /// Whether anything of this server is exposed.
    pub fn server_allowed(&self, server: &str) -> (allowed: bool)
        ensures
            allowed == self@.dom().contains(server@),
    {
        self.last_word(server).is_some()
    }

    fn last_word(&self, server: &str) -> (at: Option<usize>)
        ensures
            match at {
                Some(i) => i < self.servers@.len() && self@.dom().contains(server@)
                    && self@[server@] == self.servers@[i as int].1@,
                None => !self@.dom().contains(server@),
            },
    {
        let mut n: usize = self.servers.len();
        assert(self.servers@.take(n as int) =~= self.servers@);
        while n > 0
            invariant
                n <= self.servers@.len(),
                reach_of(self.servers@).dom().contains(server@) == reach_of(
                    self.servers@.take(n as int),
                ).dom().contains(server@),
                reach_of(self.servers@)[server@] == reach_of(self.servers@.take(n as int))[server@],
            decreases n,
        {
            assert(self.servers@.take(n as int).drop_last() =~= self.servers@.take(n - 1));
            if text::same(self.servers[n - 1].0.as_str(), server) {
                return Some(n - 1);
            }
            n = n - 1;
        }
        None
    }
}

fn includes(list: &Vec<String>, item: &str) -> (found: bool)
    ensures
        found == text::texts(list@).to_set().contains(item@),
{
    let mut i: usize = 0;
    while i < list.len()
        invariant
            i <= list@.len(),
            forall|j: int| 0 <= j < i ==> #[trigger] text::texts(list@)[j] != item@,
        decreases list@.len() - i,
    {
        if text::same(list[i].as_str(), item) {
            assert(text::texts(list@)[i as int] == item@);
            return true;
        }
        i = i + 1;
    }
    false
}

/// What is not listed is denied: an empty list reaches nothing, and a tool is within
/// reach only where its server is.
pub proof fn law_denied_by_default(
    list: Map<Seq<char>, Reach>,
    server: Seq<char>,
    tool: Seq<char>,
)
    ensures
        !permits(Map::<Seq<char>, Reach>::empty(), server, tool),
        permits(list, server, tool) ==> list.dom().contains(server),
{
}

/// The last word on a server replaces what was said of it before, and says nothing
/// of other servers.
pub proof fn law_last_word_holds(
    list: Map<Seq<char>, Reach>,
    server: Seq<char>,
    reach: Reach,
    other: Seq<char>,
    tool: Seq<char>,
)
    ensures
        permits(list.insert(server, reach), server, tool) <==> match reach {
            Reach::All => true,
            Reach::Only(tools) => tools.contains(tool),
        },
        other != server ==> permits(list.insert(server, reach), other, tool) == permits(
            list,
            other,
            tool,
        ),
{
}

/// A tool is within reach exactly where its server is on the list and the server's word
/// covers it: every tool, or one that is named.
pub proof fn law_reach_is_what_was_said(
    list: Map<Seq<char>, Reach>,
    server: Seq<char>,
    tool: Seq<char>,
    tools: Set<Seq<char>>,
)
    ensures
        !list.dom().contains(server) ==> !permits(list, server, tool),
        list.dom().contains(server) && list[server] == Reach::All ==> permits(list, server, tool),
        list.dom().contains(server) && list[server] == Reach::Only(tools) ==> (permits(
            list,
            server,
            tool,
        ) <==> tools.contains(tool)),
{
}

} // verus!
