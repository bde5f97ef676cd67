//! The library's error type.

use vstd::prelude::*;

verus! {

/// Errors a `CodeMode` operation can return. These are harness failures
/// (config, spawning, transport). Errors *inside* the executed code (a thrown
/// exception, a timeout, a denied tool) are carried in [`crate::types::Outcome`]
/// instead, so the model can see them.
#[derive(Debug, Clone)]
#[non_exhaustive]
pub enum Error {
    Config(String),
    UnknownServer(String),
    Spawn { server: String, message: String },
    Mcp(String),
    Tool(String),
    /// The operating system refused the island's runtime or thread.
    Island(String),
    IslandGone,
}

/// What an error is rendered as.
pub open spec fn error_text(error: Error) -> Seq<char> {
    match error {
        Error::Config(message) => "configuration error: "@ + message@,
        Error::UnknownServer(server) => "unknown server: "@ + server@,
        Error::Spawn { server, message } => "failed to start MCP server '"@ + server@ + "': "@
            + message@,
        Error::Mcp(message) => "MCP error: "@ + message@,
        Error::Tool(message) => "tool error: "@ + message@,
        Error::Island(message) => "could not start the engine island: "@ + message@,
        Error::IslandGone => "the engine island stopped unexpectedly"@,
    }
}

impl Error {
    /// The error, rendered for a reader.
    pub fn message(&self) -> (out: String)
        ensures
            out@ == error_text(*self),
    {
        let mut out: String = String::new();
        match self {
            Error::Config(message) => {
                out.push_str("configuration error: ");
                out.push_str(message.as_str());
            },
            Error::UnknownServer(server) => {
                out.push_str("unknown server: ");
                out.push_str(server.as_str());
            },
            Error::Spawn { server, message } => {
                out.push_str("failed to start MCP server '");
                out.push_str(server.as_str());
                out.push_str("': ");
                out.push_str(message.as_str());
            },
            Error::Mcp(message) => {
                out.push_str("MCP error: ");
                out.push_str(message.as_str());
            },
            Error::Tool(message) => {
                out.push_str("tool error: ");
                out.push_str(message.as_str());
            },
            Error::Island(message) => {
                out.push_str("could not start the engine island: ");
                out.push_str(message.as_str());
            },
            Error::IslandGone => {
                out.push_str("the engine island stopped unexpectedly");
            },
        }
        assert(out@ =~= error_text(*self));
        out
    }
}

/// A rendered error tells its whole message behind the words of its kind, whatever the
/// message is.
pub proof fn law_errors_tell_their_whole_message(server: String, message: String)
    ensures
        error_text(Error::Config(message)) == "configuration error: "@ + message@,
        error_text(Error::UnknownServer(server)) == "unknown server: "@ + server@,
        error_text(Error::Spawn { server, message }) == "failed to start MCP server '"@ + server@
            + "': "@ + message@,
        error_text(Error::Mcp(message)) == "MCP error: "@ + message@,
        error_text(Error::Tool(message)) == "tool error: "@ + message@,
        error_text(Error::Island(message)) == "could not start the engine island: "@ + message@,
        error_text(Error::IslandGone) == "the engine island stopped unexpectedly"@,
{
}

} // verus!
