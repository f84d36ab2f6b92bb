//! A verified core for sharing git proposals over a relay-distributed,
//! signed event stream: encoding a commit series as threaded patch
//! events, reconstructing the most recent patch chain from an unordered
//! bag of events, resolving each proposal's state from status events,
//! matching branch names to proposals, ordering relay fan-out and server
//! transports, and speaking git's remote-helper line protocol.
pub mod chain;
pub mod cli;
pub mod cover_letter;
pub mod events;
pub mod fanout;
pub mod helper;
pub mod list;
pub mod nostr_calls;
pub mod proposals;
pub mod send;
pub mod strutil;
pub mod transport;
