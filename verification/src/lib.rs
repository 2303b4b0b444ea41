//! In-memory core of a remote mute-control server.
//!
//! A set of "watcher" clients hold persistent text-stream connections to the
//! server.  External callers command a watcher to mute or unmute itself, query
//! its current mute state, list the connected watchers, or subscribe to the
//! state changes a watcher reports.  This crate verifies the heart of that
//! server: the watcher registry, the per-connection correlation table that
//! matches query replies to waiting callers, the subscription fan-out table,
//! and the parsing and encoding of the text frames on the wire.  The
//! transport itself (sockets, channels, tasks) lives outside the library and
//! drives these functions.

pub mod correlation;
pub mod dispatch;
pub mod frame;
pub mod ident;
pub mod kind;
pub mod state;
pub mod table;
