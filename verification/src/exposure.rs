//! The servers exposed to an engine's executions. They are fixed for the engine's life,
//! so they are listed once, by the first execution, and kept.

use vstd::prelude::*;

use crate::error::Error;
use crate::types::{self, ServerTools, ServerView};

verus! {

/// The exposed servers, once they are known.
#[derive(Debug)]
pub struct Exposure {
    kept: Option<Vec<ServerTools>>,
    listing: bool,
}

/// What an execution does for its servers.
#[derive(Debug)]
pub enum ExposureStep {
    /// Go on with these.
    Use(Vec<ServerTools>),
    /// List them, and report what came of it.
    List,
    /// Another execution is listing them: ask again once it is done.
    Wait,
}

/// A step, by what it says.
pub enum ExposureView {
    Use(Seq<ServerView>),
    List,
    Wait,
}

impl View for ExposureStep {
    type V = ExposureView;

    open spec fn view(&self) -> ExposureView {
        match *self {
            ExposureStep::Use(servers) => ExposureView::Use(types::server_views(servers@)),
            ExposureStep::List => ExposureView::List,
            ExposureStep::Wait => ExposureView::Wait,
        }
    }
}

/// The state of an [`Exposure`].
#[verifier::ext_equal]
pub struct ExposureState {
    /// The servers, once a listing succeeded.
    pub kept: Option<Seq<ServerView>>,
    /// Whether an execution is listing them.
    pub listing: bool,
}

/// Nothing has been listed yet.
pub open spec fn unlisted() -> ExposureState {
    ExposureState { kept: None, listing: false }
}

/// An execution asks for its servers. The first one lists them; those that come
/// meanwhile wait, and once they are known nobody lists them again.
pub open spec fn asked(state: ExposureState) -> (ExposureState, ExposureView) {
    match state.kept {
        Some(servers) => (state, ExposureView::Use(servers)),
        None => if state.listing {
            (state, ExposureView::Wait)
        } else {
            (ExposureState { listing: true, ..state }, ExposureView::List)
        },
    }
}

/// A listing ended: with these servers, or without success. Only a success is kept, and
/// the first one stands.
pub open spec fn reported(state: ExposureState, servers: Option<Seq<ServerView>>) -> ExposureState {
    ExposureState {
        kept: if state.kept is Some {
            state.kept
        } else {
            servers
        },
        listing: false,
    }
}

impl View for Exposure {
    type V = ExposureState;

    closed spec fn view(&self) -> ExposureState {
        ExposureState {
            kept: match self.kept {
                Some(servers) => Some(types::server_views(servers@)),
                None => None,
            },
            listing: self.listing,
        }
    }
}

fn copied(servers: &Vec<ServerTools>) -> (copy: Vec<ServerTools>)
    ensures
        types::server_views(copy@) == types::server_views(servers@),
{
    let copy: Vec<ServerTools> = servers.clone();
    assert(types::server_views(copy@) =~= types::server_views(servers@));
    copy
}

impl Exposure {
    /// Nothing listed yet.
    pub fn new() -> (exposure: Self)
        ensures
            exposure@ == unlisted(),
    {
        Exposure { kept: None, listing: false }
    }

    /// What an execution does for its servers.
    pub fn on_execute(&mut self) -> (step: ExposureStep)
        ensures
            (final(self)@, step@) == asked(old(self)@),
    {
        match &self.kept {
            Some(servers) => ExposureStep::Use(copied(servers)),
            None => {
                if self.listing {
                    ExposureStep::Wait
                } else {
                    self.listing = true;
                    ExposureStep::List
                }
            },
        }
    }

    /// Notes what came of a listing. The servers, or the error, are handed back to the
    /// execution that listed them.
    pub fn listed(&mut self, result: Result<Vec<ServerTools>, Error>) -> (own: Result<
        Vec<ServerTools>,
        Error,
    >)
        ensures
            own == result,
            final(self)@ == reported(
                old(self)@,
                match result {
                    Ok(servers) => Some(types::server_views(servers@)),
                    Err(_) => None,
                },
            ),
    {
        self.listing = false;
        if let Ok(servers) = &result {
            if self.kept.is_none() {
                self.kept = Some(copied(servers));
            }
        }
        result
    }

    /// Notes that a listing broke off without a result.
    pub fn broke_off(&mut self)
        ensures
            final(self)@ == reported(old(self)@, None),
    {
        self.listing = false;
    }
}

/// What can happen to an [`Exposure`].
pub enum Happening {
    Execute,
    Listed(Option<Seq<ServerView>>),
}

/// The exposure after some happenings, one after another.
pub open spec fn after(state: ExposureState, happenings: Seq<Happening>) -> ExposureState
    decreases happenings.len(),
{
    if happenings.len() == 0 {
        state
    } else {
        let before = after(state, happenings.drop_last());
        match happenings.last() {
            Happening::Execute => asked(before).0,
            Happening::Listed(servers) => reported(before, servers),
        }
    }
}

/// The servers are listed once: after a listing succeeded every execution, whatever
/// happened meanwhile, goes on with what that listing gave.
pub proof fn law_success_is_kept(
    state: ExposureState,
    servers: Seq<ServerView>,
    happenings: Seq<Happening>,
)
    requires
        state.kept is None,
    ensures
        asked(after(reported(state, Some(servers)), happenings)).1 == ExposureView::Use(servers),
    decreases happenings.len(),
{
    if happenings.len() > 0 {
        law_success_is_kept(state, servers, happenings.drop_last());
    }
}

/// While one execution lists the servers no other does: as long as no listing ends, each
/// one that asks waits.
pub proof fn law_one_lists_at_a_time(state: ExposureState, happenings: Seq<Happening>)
    requires
        asked(state).1 is List,
        forall|i: int| 0 <= i < happenings.len() ==> (#[trigger] happenings[i]) is Execute,
    ensures
        asked(after(asked(state).0, happenings)).1 is Wait,
    decreases happenings.len(),
{
    if happenings.len() > 0 {
        assert(happenings.last() is Execute);
        assert forall|i: int| 0 <= i < happenings.drop_last().len() implies (
        #[trigger] happenings.drop_last()[i]) is Execute by {
            assert(happenings[i] is Execute);
        }
        law_one_lists_at_a_time(state, happenings.drop_last());
    }
}

/// A failure is not kept: the next execution lists the servers anew.
pub proof fn law_failure_is_not_kept(state: ExposureState)
    requires
        state.kept is None,
    ensures
        asked(reported(state, None)).1 is List,
{
}

/// The first execution of an engine lists the servers itself, and while a listing runs
/// every other execution waits for it, whatever has been tried before.
pub proof fn law_first_execution_lists(state: ExposureState)
    ensures
        asked(unlisted()).1 is List,
        state.kept is None && !state.listing ==> asked(state).1 is List && asked(state).0.listing,
        state.kept is None && state.listing ==> asked(state) == (state, ExposureView::Wait),
        asked(state).0.kept == state.kept,
{
}

/// A step says which servers it goes on with.
pub proof fn law_steps_say_their_servers(servers: Vec<ServerTools>)
    ensures
        ExposureStep::Use(servers)@ == ExposureView::Use(types::server_views(servers@)),
        ExposureStep::List@ is List,
        ExposureStep::Wait@ is Wait,
{
}

} // verus!
