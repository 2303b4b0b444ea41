//! The per-connection step functions that the transport loops drive.
//!
//! The send loop takes one queued command at a time and turns it into
//! exactly one outbound frame; a state query registers its completion
//! handle in the correlation table *before* the frame is handed back, so a
//! reply cannot race past it.  The receive loop hands each inbound frame to
//! `handle_frame` and performs the effect it returns.  When either loop
//! ends, `close_connection` runs once: it removes the watcher from the
//! registry and the subscription table and returns every still-pending
//! completion handle so the caller can cancel them all.

use crate::correlation::CorrelationTable;
use crate::frame::{encode_mute, encode_unmute, frame_of, mute_frame, parse_frame, query_frame,
    unmute_frame, ParsedFrame};
use crate::kind::{DispatchError, MuteKind, MuteSetting, RequestKind};
use crate::state::AppState;
use vstd::prelude::*;

verus! {

/// What the receive loop must do with one inbound frame.
pub enum FrameEffect<T> {
    /// Forward the state event to the current subscriber's channel.
    Deliver { chan: u64, kind: MuteKind },
    /// Fulfill the completion handle of the query the reply names.
    Fulfill { handle: T, muted: bool },
    /// Report a protocol violation; the frame itself is discarded.
    ReportViolation,
    /// Nothing to do.
    Nothing,
}

/// One step of the send loop: one command in, exactly one frame out.
/// A `Mute` or `Unmute` command never touches the correlation table; a
/// query registers its handle first and embeds the fresh correlation
/// identifier in the frame.  `Err` returns the handle unused (no fresh
/// identifier was found), and the table is unchanged.
pub fn handle_command<T>(table: &mut CorrelationTable<T>, cmd: RequestKind<T>) -> (r: Result<
    Vec<u8>,
    T,
>)
    requires
        old(table).wf(),
    ensures
        final(table).wf(),
        (cmd is Mute ==> (r matches Ok(f) && f@ == mute_frame() && *final(table) == *old(table))),
        (cmd is Unmute ==> (r matches Ok(f) && f@ == unmute_frame() && *final(table) == *old(
            table,
        ))),
        (cmd matches RequestKind::GetMuteSetting { resp } ==> (match r {
            Ok(f) => (exists|cid: u128|
                {
                    &&& !old(table).issued_ids().contains(cid)
                    &&& final(table).pending_map() == old(table).pending_map().insert(cid, resp)
                    &&& final(table).pending_entries() == old(table).pending_entries().push(
                        (cid, resp),
                    )
                    &&& final(table).issued_ids() == old(table).issued_ids().insert(cid)
                    &&& f@ == query_frame(cid)
                }),
            Err(h) => h == resp && *final(table) == *old(table),
        })),
{
    match cmd {
        RequestKind::Mute => Ok(encode_mute()),
        RequestKind::Unmute => Ok(encode_unmute()),
        RequestKind::GetMuteSetting { resp } => {
            match table.open_query(resp) {
                Ok((cid, frame)) => {
                    proof {
                        assert(!old(table).issued_ids().contains(cid) && table.pending_map()
                            == old(table).pending_map().insert(cid, resp) && table.pending_entries()
                            == old(table).pending_entries().push((cid, resp)) && table.issued_ids()
                            == old(table).issued_ids().insert(cid) && frame@ == query_frame(cid));
                    }
                    Ok(frame)
                },
                Err(h) => Err(h),
            }
        },
    }
}

/// One step of the receive loop: classifies the frame and says what must
/// happen.  A state push goes to the current subscriber if there is one and
/// is silently dropped otherwise.  A reply fulfills the pending query it
/// names, exactly once; a reply naming an unknown or already-resolved
/// correlation identifier is a protocol violation, reported and discarded
/// without touching any pending query.
pub fn handle_frame<T>(table: &mut CorrelationTable<T>, subscriber: Option<u64>, text: &[u8]) -> (r:
    FrameEffect<T>)
    requires
        old(table).wf(),
    ensures
        final(table).wf(),
        final(table).issued_ids() == old(table).issued_ids(),
        (frame_of(text@) matches ParsedFrame::Push { kind } ==> *final(table) == *old(table) && r
            == (match subscriber {
            Some(c) => FrameEffect::Deliver { chan: c, kind },
            None => FrameEffect::<T>::Nothing,
        })),
        (frame_of(text@) matches ParsedFrame::Resp { correlation, muted } ==> (match r {
            FrameEffect::Fulfill { handle, muted: m } => {
                &&& m == muted
                &&& old(table).pending_map().contains_key(correlation)
                &&& handle == old(table).pending_map()[correlation]
                &&& final(table).pending_map() == old(table).pending_map().remove(correlation)
            },
            FrameEffect::ReportViolation => !old(table).pending_map().contains_key(correlation)
                && *final(table) == *old(table),
            _ => false,
        })),
        (frame_of(text@) is Ignored ==> r is Nothing && *final(table) == *old(table)),
        (frame_of(text@) is Violation ==> r is ReportViolation && *final(table) == *old(table)),
{
    match parse_frame(text) {
        ParsedFrame::Push { kind } => match subscriber {
            Some(c) => FrameEffect::Deliver { chan: c, kind },
            None => FrameEffect::Nothing,
        },
        ParsedFrame::Resp { correlation, muted } => match table.take(correlation) {
            Some(handle) => FrameEffect::Fulfill { handle, muted },
            None => FrameEffect::ReportViolation,
        },
        ParsedFrame::Ignored => FrameEffect::Nothing,
        ParsedFrame::Violation => FrameEffect::ReportViolation,
    }
}

/// The cleanup that runs exactly once when a connection ends, whichever
/// loop stopped first: the watcher leaves the registry, its subscription
/// entry goes, and every still-pending query's handle comes back so the
/// caller can cancel it.  The watcher identifier stays used forever.
pub fn close_connection<T>(state: &mut AppState, table: &mut CorrelationTable<T>, uuid: u128) -> (r:
    Vec<T>)
    requires
        old(state).wf(),
        old(table).wf(),
    ensures
        final(state).wf(),
        final(table).wf(),
        final(state).watchers_map() == old(state).watchers_map().remove(uuid),
        final(state).senders_map() == old(state).senders_map().remove(uuid),
        final(state).subscribers_map() == old(state).subscribers_map().remove(uuid),
        final(state).issued_ids() == old(state).issued_ids(),
        !final(state).registered(uuid),
        final(table).pending_map() == Map::<u128, T>::empty(),
        final(table).pending_entries() == Seq::<(u128, T)>::empty(),
        r@ == old(table).pending_entries().map_values(|p: (u128, T)| p.1),
{
    state.unregister(uuid);
    table.drain_all()
}

/// Maps the fate of a command handed to a watcher's channel to the
/// caller-visible outcome: `DeliveryFailed` when the registry still named
/// the connection but it closed before the command could be queued — a
/// transient failure the caller may retry after re-resolving the
/// identifier.
pub fn delivery_outcome(sent: bool) -> (r: Result<(), DispatchError>)
    ensures
        sent ==> r == Ok::<(), DispatchError>(()),
        !sent ==> r == Err::<(), DispatchError>(DispatchError::DeliveryFailed),
{
    if sent {
        Ok(())
    } else {
        Err(DispatchError::DeliveryFailed)
    }
}

/// Maps the end of a query wait to the caller-visible outcome: the reported
/// setting, or `QueryCancelled` when the connection closed and dropped the
/// completion handle before any reply arrived.
pub fn query_reply_outcome(reply: Option<bool>) -> (r: Result<MuteSetting, DispatchError>)
    ensures
        (reply matches Some(b) ==> r == Ok::<MuteSetting, DispatchError>(
            (MuteSetting { mute: b }),
        )),
        (reply is None ==> r == Err::<MuteSetting, DispatchError>(DispatchError::QueryCancelled)),
{
    match reply {
        Some(b) => Ok(MuteSetting { mute: b }),
        None => Err(DispatchError::QueryCancelled),
    }
}

} // verus!
