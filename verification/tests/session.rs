//! Registry, correlation and dispatch tests, driven as the transport loops
//! would drive them.  Completion handles are plain integers here; the
//! library never looks inside a handle.

use mutehub::correlation::CorrelationTable;
use mutehub::dispatch::{
    close_connection, delivery_outcome, handle_command, handle_frame, query_reply_outcome,
    FrameEffect,
};
use mutehub::kind::{DispatchError, MuteKind, MuteSetting, RequestKind};
use mutehub::state::AppState;

fn register_watcher(state: &mut AppState, name: &str, chan: u64) -> u128 {
    state
        .register(name.to_string(), "user".to_string(), "avatar".to_string(), chan)
        .expect("a fresh identifier should be found")
}

#[test]
fn unknown_watcher_is_rejected_everywhere() {
    let mut state = AppState::new();
    let ghost_id: u128 = 12345;
    assert_eq!(state.get_request_sender(ghost_id), None);
    assert_eq!(state.subscribe(ghost_id, 1), Err(DispatchError::UnknownWatcher));
    assert_eq!(state.subscriber_for(ghost_id), None);
    assert_eq!(state.get_watchers().len(), 0);
}

#[test]
fn register_then_lookup_and_list() {
    let mut state = AppState::new();
    let id = register_watcher(&mut state, "alice", 7);
    assert_eq!(state.get_request_sender(id), Some(7));
    let records = state.get_watchers();
    assert_eq!(records.len(), 1);
    assert_eq!(records[0].uuid, id);
    assert_eq!(records[0].username, "alice");
    assert_eq!(records[0].user_id, "user");
    assert_eq!(records[0].avatar_id, "avatar");
}

#[test]
fn distinct_watchers_get_distinct_ids() {
    let mut state = AppState::new();
    let a = register_watcher(&mut state, "a", 1);
    let b = register_watcher(&mut state, "b", 2);
    assert_ne!(a, b);
    assert_eq!(state.get_request_sender(a), Some(1));
    assert_eq!(state.get_request_sender(b), Some(2));
}

#[test]
fn mute_command_writes_exactly_one_frame_in_order() {
    let mut table: CorrelationTable<u32> = CorrelationTable::new();
    let mut written: Vec<Vec<u8>> = Vec::new();
    for cmd in [RequestKind::Mute, RequestKind::Unmute, RequestKind::Mute] {
        match handle_command(&mut table, cmd) {
            Ok(frame) => written.push(frame),
            Err(_) => panic!("plain commands never fail"),
        }
    }
    assert_eq!(
        written,
        vec![b"mute".to_vec(), b"unmute".to_vec(), b"mute".to_vec()]
    );
}

#[test]
fn query_reply_resolves_to_reported_value() {
    let mut table: CorrelationTable<u32> = CorrelationTable::new();
    let (cid, frame) = table.open_query(41u32).ok().unwrap();
    let expected = format!("GET SETTING MUTE {}", uuid::Uuid::from_u128(cid));
    assert_eq!(frame, expected.into_bytes());
    let reply = format!("RESP {} true", uuid::Uuid::from_u128(cid));
    match handle_frame(&mut table, None, reply.as_bytes()) {
        FrameEffect::Fulfill { handle, muted } => {
            assert_eq!(handle, 41);
            assert!(muted);
        }
        _ => panic!("the reply must fulfill the pending query"),
    }
    assert_eq!(query_reply_outcome(Some(true)), Ok(MuteSetting { mute: true }));
}

#[test]
fn connection_close_cancels_outstanding_query() {
    let mut state = AppState::new();
    let id = register_watcher(&mut state, "w", 3);
    let mut table: CorrelationTable<u32> = CorrelationTable::new();
    let (_cid, _frame) = table.open_query(5u32).ok().unwrap();
    let cancelled = close_connection(&mut state, &mut table, id);
    assert_eq!(cancelled, vec![5]);
    assert_eq!(
        query_reply_outcome(None),
        Err(DispatchError::QueryCancelled)
    );
}

#[test]
fn sequential_queries_use_distinct_ids_and_stale_reply_is_discarded() {
    let mut table: CorrelationTable<u32> = CorrelationTable::new();
    let (cid1, _) = table.open_query(1u32).ok().unwrap();
    let reply1 = format!("RESP {} false", uuid::Uuid::from_u128(cid1));
    match handle_frame(&mut table, None, reply1.as_bytes()) {
        FrameEffect::Fulfill { handle, muted } => {
            assert_eq!(handle, 1);
            assert!(!muted);
        }
        _ => panic!("first reply must resolve the first query"),
    }
    let (cid2, _) = table.open_query(2u32).ok().unwrap();
    assert_ne!(cid1, cid2);
    // a stale reply naming the already-resolved identifier is a violation
    match handle_frame(&mut table, None, reply1.as_bytes()) {
        FrameEffect::ReportViolation => {}
        _ => panic!("a stale reply must be discarded"),
    }
    // ... and the second query is untouched by it
    let reply2 = format!("RESP {} true", uuid::Uuid::from_u128(cid2));
    match handle_frame(&mut table, None, reply2.as_bytes()) {
        FrameEffect::Fulfill { handle, muted } => {
            assert_eq!(handle, 2);
            assert!(muted);
        }
        _ => panic!("second reply must resolve the second query"),
    }
}

#[test]
fn subscription_delivers_exactly_one_event_and_resubscribe_replaces() {
    let mut state = AppState::new();
    let mut table: CorrelationTable<u32> = CorrelationTable::new();
    let id = register_watcher(&mut state, "w", 9);
    assert_eq!(state.subscribe(id, 100), Ok(()));
    match handle_frame(&mut table, state.subscriber_for(id), b"muted") {
        FrameEffect::Deliver { chan, kind } => {
            assert_eq!(chan, 100);
            assert_eq!(kind, MuteKind::Muted);
        }
        _ => panic!("the push must reach the subscriber"),
    }
    // a second subscriber replaces the first
    assert_eq!(state.subscribe(id, 200), Ok(()));
    match handle_frame(&mut table, state.subscriber_for(id), b"unmuted") {
        FrameEffect::Deliver { chan, kind } => {
            assert_eq!(chan, 200);
            assert_eq!(kind, MuteKind::Unmuted);
        }
        _ => panic!("the push must reach the replacement subscriber"),
    }
}

#[test]
fn close_with_many_outstanding_queries_cancels_all_and_unlists() {
    let mut state = AppState::new();
    let id = register_watcher(&mut state, "w", 4);
    let mut table: CorrelationTable<u32> = CorrelationTable::new();
    let (_c1, _) = table.open_query(11u32).ok().unwrap();
    let (_c2, _) = table.open_query(22u32).ok().unwrap();
    let (c3, _) = table.open_query(33u32).ok().unwrap();
    let cancelled = close_connection(&mut state, &mut table, id);
    assert_eq!(cancelled, vec![11, 22, 33]);
    assert_eq!(state.get_watchers().len(), 0);
    assert_eq!(state.get_request_sender(id), None);
    // nothing stays pending: even the last reply now reports a violation
    let reply = format!("RESP {} true", uuid::Uuid::from_u128(c3));
    match handle_frame(&mut table, None, reply.as_bytes()) {
        FrameEffect::ReportViolation => {}
        _ => panic!("no query may survive the close"),
    }
}

#[test]
fn full_watcher_scenario() {
    let mut state = AppState::new();
    let mut table: CorrelationTable<u32> = CorrelationTable::new();
    // register watcher W; it is greeted with its own identifier
    let id = register_watcher(&mut state, "w", 1);
    let greeting = mutehub::frame::encode_greeting(id);
    let expected = format!("Your UUID is {}", uuid::Uuid::from_u128(id));
    assert_eq!(greeting, expected.into_bytes());
    // issue(id, Mute): the watcher's transport receives `mute`
    let chan = state.get_request_sender(id);
    assert_eq!(chan, Some(1));
    let frame = handle_command(&mut table, RequestKind::<u32>::Mute).ok().unwrap();
    assert_eq!(frame, b"mute".to_vec());
    // the watcher reports `muted` with no subscriber present: silently dropped
    match handle_frame(&mut table, state.subscriber_for(id), b"muted") {
        FrameEffect::Nothing => {}
        _ => panic!("a push without a subscriber is dropped"),
    }
    // subscribe, then the watcher reports `muted` again: delivered
    assert_eq!(state.subscribe(id, 77), Ok(()));
    match handle_frame(&mut table, state.subscriber_for(id), b"muted") {
        FrameEffect::Deliver { chan, kind } => {
            assert_eq!(chan, 77);
            assert_eq!(kind, MuteKind::Muted);
        }
        _ => panic!("the push must now reach the subscriber"),
    }
}

#[test]
fn dispatcher_outcome_mappings() {
    assert_eq!(delivery_outcome(true), Ok(()));
    assert_eq!(delivery_outcome(false), Err(DispatchError::DeliveryFailed));
    assert_eq!(
        query_reply_outcome(Some(false)),
        Ok(MuteSetting { mute: false })
    );
    assert_eq!(query_reply_outcome(None), Err(DispatchError::QueryCancelled));
}

#[test]
fn insert_then_take_exactly_once() {
    let mut table: CorrelationTable<u32> = CorrelationTable::new();
    assert!(!table.is_issued(9));
    table.insert(9, 77);
    assert!(table.is_issued(9));
    assert_eq!(table.take(9), Some(77));
    // resolved exactly once: a second take finds nothing
    assert_eq!(table.take(9), None);
    // ... and the identifier stays used forever
    assert!(table.is_issued(9));
}

#[test]
fn unregister_removes_subscription_entry() {
    let mut state = AppState::new();
    let id = register_watcher(&mut state, "w", 2);
    assert_eq!(state.subscribe(id, 50), Ok(()));
    assert_eq!(state.subscriber_for(id), Some(50));
    state.unregister(id);
    assert_eq!(state.subscriber_for(id), None);
    assert_eq!(state.get_request_sender(id), None);
}
