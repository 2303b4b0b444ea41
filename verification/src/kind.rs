//! The plain value types of the protocol: commands, state events, and the
//! outcomes the dispatcher reports to external callers.

use vstd::prelude::*;

verus! {

/// A command routed to one watcher connection's send loop.
///
/// `T` is the completion handle of a state query: a single-use slot the
/// caller awaits, fulfilled with the reported boolean or dropped when the
/// connection closes first.  The library never looks inside a handle; it only
/// stores it in the correlation table and hands it back out exactly once.
pub enum RequestKind<T> {
    Mute,
    Unmute,
    GetMuteSetting { resp: T },
}

/// A mute-state change a watcher reports about itself.
#[derive(Clone, Copy, Debug, PartialEq, Eq, Structural)]
pub enum MuteKind {
    Muted,
    Unmuted,
}

/// The answer to a mute-state query.
#[derive(Clone, Copy, Debug, PartialEq, Eq, Structural)]
pub struct MuteSetting {
    pub mute: bool,
}

/// Why a dispatcher operation did not succeed.
///
/// `UnknownWatcher`: the identifier is not in the registry (caller error, not
/// retried).  `DeliveryFailed`: the command channel vanished between lookup
/// and send (transient; the caller may re-resolve the identifier and retry).
/// `QueryCancelled`: the connection closed while a query was outstanding.
#[derive(Clone, Copy, Debug, PartialEq, Eq, Structural)]
pub enum DispatchError {
    UnknownWatcher,
    DeliveryFailed,
    QueryCancelled,
}

} // verus!
