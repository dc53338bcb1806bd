//! The Model Context Protocol server's logic: tool lists, discovery answers,
//! tool-call resolution and JSON-RPC framing.
pub mod resources;
pub mod tools;
pub mod server;
pub mod call;
pub mod discover;
