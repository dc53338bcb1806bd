//! Gmail helpers: building RFC 2822 messages, reading fetched messages,
//! and the `+send` and `+forward` commands.
use vstd::prelude::*;

pub mod message;
pub mod original;
pub mod request;
pub mod send;
pub mod forward;

verus! {

/// The Gmail helper: the `+send` and `+forward` commands.
pub struct GmailHelper;

} // verus!
