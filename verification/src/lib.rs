//! Command dispatch for a chat bot: recognising a command in a message,
//! keeping the table of registered handlers, and deciding which handler a
//! message goes to.
//!
//! The crate holds the rules only. Connections, locks and threads belong to
//! the application that embeds it.

pub mod parser;
pub mod registry;
pub mod client;
