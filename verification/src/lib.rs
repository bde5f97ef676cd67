//! Run model-written code against MCP tools instead of exposing every tool directly.
//! The model writes a small program that calls tools and orchestrates them in a
//! sandbox, so intermediate results never re-enter its context.
//!
//! This crate is the part that decides: what is exposed ([`AllowList`]), which calls
//! go through and what comes back ([`runtime::Guard`]), what an execution does next
//! and what it results in ([`boa::Run`]), which values can cross the sandbox's
//! boundary ([`convert`]), what module a server is given ([`modules`]), how a
//! worker process and its parent talk ([`subprocess`]) and how a configuration
//! becomes an engine ([`CodeModeBuilder`]). It performs no I/O: the engine, the
//! connections and the processes are driven from outside, by what it says.

pub mod boa;
pub mod codemode;
pub mod config;
pub mod convert;
pub mod error;
pub mod events;
pub mod exposure;
pub mod json;
pub mod local;
pub mod logs;
pub mod mcp;
pub mod modules;
pub mod runtime;
pub mod server;
pub mod source;
pub mod subprocess;
pub mod text;
pub mod time;
pub mod types;

pub use boa::Boa;
pub use codemode::{CodeModeBuilder, Plan};
pub use config::{Config, ServerConfig};
pub use error::Error;
pub use local::LocalTools;
pub use runtime::{BridgeError, RunRequest};
pub use source::AllowList;
pub use subprocess::SubprocessRuntime;
pub use types::{
    Capabilities, ExecError, Limits, Outcome, ServerInfo, ServerTools, ToolInfo,
};
