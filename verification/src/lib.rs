//! A broadcast relay core: one registry of live connections, fed by one reader
//! per connection, that routes every inbound message to all connections but
//! its sender.
//!
//! The crate performs no I/O. Readers and the registry are state machines:
//! the caller reads, sends and writes, tells them what happened, and does what
//! they answer.

pub mod broadcast;
pub mod event;
pub mod history;
pub mod reader;
pub mod registry;
