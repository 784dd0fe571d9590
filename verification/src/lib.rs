//! Connection management for a single-process TCP chat host.
//!
//! The host accepts any number of TCP connections, keeps the messages of
//! each, and lets an operator answer any of them. This library is the part
//! of it that decides: the registry of live connections, the identities they
//! are known by, what the network event loop does with the outcome of each
//! socket call, and the state of the operator's console. The sockets, the
//! multiplexer, the lock around the registry and the terminal belong to the
//! program that uses it.

pub mod console;
pub mod event_loop;
pub mod identity;
pub mod model;
pub mod server;
pub mod text;
pub mod trace;
pub mod trusted;
