//! The dispatch core of a small line-oriented chat server that speaks an
//! IRC-like protocol.
//!
//! The library holds the protocol codec, the user and channel registries and
//! the handlers that turn one parsed message into registry changes and a list
//! of lines to deliver. It performs no I/O: every handler returns the lines it
//! wants written, each addressed to a connection id, and the caller writes
//! them.
//!
//! - `types`, `parser`: the protocol's vocabulary, the wire form of replies
//!   and the reading of lines.
//! - `user`, `channel_list`: the two registries and their invariants.
//! - `massage_sender`, `massage_handler`, `plugin`: what each kind of message
//!   does.
//! - `dispatcher`, `reader`: the dispatch queue and what feeds it.
//! - `invariants`: what holds of the registries whatever the clients send.
//! - `text`: helpers on strings.
pub mod text;
pub mod types;
pub mod parser;
pub mod user;
pub mod channel_list;
pub mod plugin;
pub mod massage_sender;
pub mod massage_handler;
pub mod dispatcher;
pub mod reader;
pub mod invariants;
