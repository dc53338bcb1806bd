//! The logic of a command-line client for Google Workspace APIs: its error
//! reporting, the Gmail and Sheets helper commands, and a Model Context
//! Protocol server that offers API methods as tools.
pub mod text;
pub mod json;
pub mod codec;
pub mod error;
pub mod cli;
pub mod discovery;
pub mod gmail;
pub mod sheets;
pub mod mcp;
