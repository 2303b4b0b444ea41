//! Wire-format tests: identifier text, frame classification, frame encoding.

use mutehub::frame::{
    encode_greeting, encode_mute, encode_query, encode_state, encode_unmute, parse_frame,
    tokenize, ParsedFrame,
};
use mutehub::ident::{format_id, parse_id};
use mutehub::kind::MuteKind;

#[test]
fn id_text_matches_uuid_display() {
    let samples: [u128; 4] = [
        0,
        1,
        0xa1a2a3a4b1b2c1c2d1d2d3d4d5d6d7d8,
        u128::MAX,
    ];
    for &n in samples.iter() {
        let expected = uuid::Uuid::from_u128(n).to_string();
        assert_eq!(format_id(n), expected.as_bytes().to_vec());
    }
}

#[test]
fn id_text_round_trips() {
    let samples: [u128; 5] = [0, 1, 42, 0xdeadbeefdeadbeefdeadbeefdeadbeef, u128::MAX];
    for &n in samples.iter() {
        let text = format_id(n);
        assert_eq!(parse_id(&text), Some(n));
    }
}

#[test]
fn id_parse_matches_uuid_parser() {
    let text = "a1a2a3a4-b1b2-c1c2-d1d2-d3d4d5d6d7d8";
    let ours = parse_id(text.as_bytes()).unwrap();
    let theirs = uuid::Uuid::parse_str(text).unwrap().as_u128();
    assert_eq!(ours, theirs);
}

#[test]
fn id_parse_rejects_malformed() {
    assert_eq!(parse_id(b""), None);
    assert_eq!(parse_id(b"not-an-id"), None);
    // right length, wrong dash positions
    assert_eq!(parse_id(b"a1a2a3a4b-1b2-c1c2-d1d2-d3d4d5d6d7d8"), None);
    // uppercase hex is not the canonical form the server emits
    assert_eq!(parse_id(b"A1A2A3A4-B1B2-C1C2-D1D2-D3D4D5D6D7D8"), None);
    // one byte short
    assert_eq!(parse_id(b"a1a2a3a4-b1b2-c1c2-d1d2-d3d4d5d6d7d"), None);
}

#[test]
fn tokenize_splits_on_whitespace_runs() {
    let toks = tokenize(b"  RESP \t x\n");
    assert_eq!(toks.len(), 2);
    assert_eq!(toks[0], b"RESP".to_vec());
    assert_eq!(toks[1], b"x".to_vec());
    assert_eq!(tokenize(b"").len(), 0);
    assert_eq!(tokenize(b" \t\r\n").len(), 0);
}

#[test]
fn parse_frame_state_pushes() {
    assert_eq!(
        parse_frame(b"muted"),
        ParsedFrame::Push { kind: MuteKind::Muted }
    );
    assert_eq!(
        parse_frame(b"  unmuted \t"),
        ParsedFrame::Push { kind: MuteKind::Unmuted }
    );
    // a recognized push with extra tokens is not a push; it is ignored
    assert_eq!(parse_frame(b"muted extra"), ParsedFrame::Ignored);
}

#[test]
fn parse_frame_ignores_unknown_and_empty() {
    assert_eq!(parse_frame(b""), ParsedFrame::Ignored);
    assert_eq!(parse_frame(b"   "), ParsedFrame::Ignored);
    assert_eq!(parse_frame(b"ping 123"), ParsedFrame::Ignored);
}

#[test]
fn parse_frame_reply() {
    let cid: u128 = 0x0123456789abcdef0123456789abcdef;
    let text = format!("RESP {} true", uuid::Uuid::from_u128(cid));
    assert_eq!(
        parse_frame(text.as_bytes()),
        ParsedFrame::Resp { correlation: cid, muted: true }
    );
    let text = format!("RESP {} false", uuid::Uuid::from_u128(cid));
    assert_eq!(
        parse_frame(text.as_bytes()),
        ParsedFrame::Resp { correlation: cid, muted: false }
    );
}

#[test]
fn parse_frame_violations() {
    // wrong arity
    assert_eq!(parse_frame(b"RESP"), ParsedFrame::Violation);
    assert_eq!(parse_frame(b"RESP x"), ParsedFrame::Violation);
    let cid = uuid::Uuid::from_u128(7);
    let text = format!("RESP {} true extra", cid);
    assert_eq!(parse_frame(text.as_bytes()), ParsedFrame::Violation);
    // unparseable identifier
    assert_eq!(parse_frame(b"RESP nonsense true"), ParsedFrame::Violation);
    // unparseable boolean
    let text = format!("RESP {} TRUE", cid);
    assert_eq!(parse_frame(text.as_bytes()), ParsedFrame::Violation);
}

#[test]
fn encoded_instruction_frames() {
    assert_eq!(encode_mute(), b"mute".to_vec());
    assert_eq!(encode_unmute(), b"unmute".to_vec());
    assert_eq!(encode_state(MuteKind::Muted), b"muted".to_vec());
    assert_eq!(encode_state(MuteKind::Unmuted), b"unmuted".to_vec());
}

#[test]
fn encoded_query_frame_embeds_id() {
    let cid: u128 = 0xfeedface00112233445566778899aabb;
    let expected = format!("GET SETTING MUTE {}", uuid::Uuid::from_u128(cid));
    assert_eq!(encode_query(cid), expected.into_bytes());
}

#[test]
fn encoded_greeting_embeds_id() {
    let id: u128 = 0x00112233445566778899aabbccddeeff;
    let expected = format!("Your UUID is {}", uuid::Uuid::from_u128(id));
    assert_eq!(encode_greeting(id), expected.into_bytes());
}
