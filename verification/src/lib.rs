//! A capability-inspection library for tool servers.
//!
//! Two backends expose the same capability surface: a JSON-RPC client that
//! talks to a subprocess over newline-delimited messages, and a declarative
//! client that executes tools described by a static manifest over HTTP or
//! local commands.  This crate holds the verified core of both: the JSON
//! document model and serializer, the `${NAME}` variable-substitution
//! engine, the request/response correlation state machine, the wire-message
//! builders and classifiers, the manifest loader, and the tool-execution
//! planner.  Process spawning, terminal presentation and actual network or
//! pipe I/O live outside this crate and consume these verified pieces.

pub mod executor;
pub mod json;
pub mod logging;
pub mod mcp;
pub mod mcp_messages;
pub mod protocol;
pub mod template;
pub mod text;
pub mod tui;
pub mod utcp;
