//! The text frames of the watcher session.
//!
//! Inbound frames from a watcher are split into whitespace-separated tokens
//! and classified: a state push (`muted` / `unmuted`), a query reply
//! (`RESP <correlation-id> <true|false>`), a protocol violation (a `RESP`
//! frame that does not parse), or an ignored frame (anything else, kept for
//! forward compatibility).  Outbound frames are the command texts `mute` and
//! `unmute`, the query text embedding a fresh correlation identifier, and the
//! greeting that tells a watcher its own identifier.

use crate::ident::{format_id, id_of_text, id_text, parse_id};
use crate::kind::MuteKind;
use vstd::prelude::*;

verus! {

/// The whitespace that separates tokens: space, tab, line feed, carriage
/// return.
pub open spec fn is_space(b: u8) -> bool {
    b == 32 || b == 9 || b == 10 || b == 13
}

/// The length of the token at the head of `t`.
pub open spec fn head_token_len(t: Seq<u8>) -> nat
    decreases t.len(),
{
    if t.len() == 0 || is_space(t[0]) {
        0
    } else {
        1 + head_token_len(t.drop_first())
    }
}

proof fn lemma_head_token_len_bounds(t: Seq<u8>)
    ensures
        head_token_len(t) <= t.len(),
        t.len() > 0 && !is_space(t[0]) ==> 1 <= head_token_len(t),
    decreases t.len(),
{
    if t.len() > 0 && !is_space(t[0]) {
        lemma_head_token_len_bounds(t.drop_first());
    }
}

/// The whitespace-separated tokens of `t`, in order.
pub open spec fn tokens_of(t: Seq<u8>) -> Seq<Seq<u8>>
    decreases t.len(),
    via tokens_of_dec
{
    if t.len() == 0 {
        Seq::empty()
    } else if is_space(t[0]) {
        tokens_of(t.drop_first())
    } else {
        seq![t.take(head_token_len(t) as int)] + tokens_of(t.skip(head_token_len(t) as int))
    }
}

#[via_fn]
proof fn tokens_of_dec(t: Seq<u8>) {
    if t.len() > 0 && !is_space(t[0]) {
        lemma_head_token_len_bounds(t);
    }
}

pub open spec fn muted_token() -> Seq<u8> {
    seq![109u8, 117u8, 116u8, 101u8, 100u8]
}

pub open spec fn unmuted_token() -> Seq<u8> {
    seq![117u8, 110u8, 109u8, 117u8, 116u8, 101u8, 100u8]
}

pub open spec fn resp_token() -> Seq<u8> {
    seq![82u8, 69u8, 83u8, 80u8]
}

pub open spec fn true_token() -> Seq<u8> {
    seq![116u8, 114u8, 117u8, 101u8]
}

pub open spec fn false_token() -> Seq<u8> {
    seq![102u8, 97u8, 108u8, 115u8, 101u8]
}

/// What a boolean token stands for.
pub open spec fn bool_of_token(t: Seq<u8>) -> Option<bool> {
    if t == true_token() {
        Some(true)
    } else if t == false_token() {
        Some(false)
    } else {
        None
    }
}

/// An inbound frame, classified.
#[derive(Clone, Copy, Debug, PartialEq, Eq, Structural)]
pub enum ParsedFrame {
    /// The watcher reports its own state changed.
    Push { kind: MuteKind },
    /// The watcher answers an outstanding query.
    Resp { correlation: u128, muted: bool },
    /// An unrecognized or empty frame, dropped without complaint.
    Ignored,
    /// A `RESP` frame whose shape does not parse: reported and discarded.
    Violation,
}

/// The classification of an inbound frame text.
pub open spec fn frame_of(t: Seq<u8>) -> ParsedFrame {
    let toks = tokens_of(t);
    if toks.len() == 1 && toks[0] == muted_token() {
        ParsedFrame::Push { kind: MuteKind::Muted }
    } else if toks.len() == 1 && toks[0] == unmuted_token() {
        ParsedFrame::Push { kind: MuteKind::Unmuted }
    } else if toks.len() >= 1 && toks[0] == resp_token() {
        if toks.len() == 3 && id_of_text(toks[1]) is Some && bool_of_token(toks[2]) is Some {
            ParsedFrame::Resp {
                correlation: id_of_text(toks[1])->Some_0,
                muted: bool_of_token(toks[2])->Some_0,
            }
        } else {
            ParsedFrame::Violation
        }
    } else {
        ParsedFrame::Ignored
    }
}

fn is_space_byte(b: u8) -> (r: bool)
    ensures
        r == is_space(b),
{
    b == 32 || b == 9 || b == 10 || b == 13
}

proof fn lemma_head_token_len(s: Seq<u8>, k: nat)
    requires
        k <= s.len(),
        forall|j: int| 0 <= j < k ==> !is_space(s[j]),
        k == s.len() || is_space(s[k as int]),
    ensures
        head_token_len(s) == k,
    decreases k,
{
    if k > 0 {
        lemma_head_token_len(s.drop_first(), (k - 1) as nat);
    }
}

/// Splits a frame into its whitespace-separated tokens.
pub fn tokenize(t: &[u8]) -> (r: Vec<Vec<u8>>)
    ensures
        r@.map_values(|v: Vec<u8>| v@) == tokens_of(t@),
{
    let mut out: Vec<Vec<u8>> = Vec::new();
    let mut i: usize = 0;
    proof {
        assert(t@.skip(0) =~= t@);
        assert(out@.map_values(|v: Vec<u8>| v@) =~= Seq::<Seq<u8>>::empty());
        assert(out@.map_values(|v: Vec<u8>| v@) + tokens_of(t@.skip(0)) =~= tokens_of(t@));
    }
    while i < t.len()
        invariant
            i <= t@.len(),
            tokens_of(t@) == out@.map_values(|v: Vec<u8>| v@) + tokens_of(t@.skip(i as int)),
        decreases t@.len() - i,
    {
        if is_space_byte(t[i]) {
            proof {
                assert(t@.skip(i as int).drop_first() =~= t@.skip(i as int + 1));
            }
            i += 1;
        } else {
            let start = i;
            let mut tok: Vec<u8> = Vec::new();
            proof {
                assert(tok@ =~= t@.subrange(start as int, start as int));
            }
            loop
                invariant
                    start <= i <= t@.len(),
                    start < t@.len(),
                    !is_space(t@[start as int]),
                    tok@ == t@.subrange(start as int, i as int),
                    forall|j: int| start <= j < i ==> !is_space(t@[j]),
                    tokens_of(t@) == out@.map_values(|v: Vec<u8>| v@) + tokens_of(
                        t@.skip(start as int),
                    ),
                ensures
                    start <= i <= t@.len(),
                    tok@ == t@.subrange(start as int, i as int),
                    forall|j: int| start <= j < i ==> !is_space(t@[j]),
                    i == t@.len() || is_space(t@[i as int]),
                decreases t@.len() - i,
            {
                if i >= t.len() {
                    break ;
                }
                let b = t[i];
                if is_space_byte(b) {
                    break ;
                }
                tok.push(b);
                i += 1;
            }
            proof {
                let s = t@.skip(start as int);
                let k = (i - start) as nat;
                assert(forall|j: int| 0 <= j < k ==> s[j] == t@[start + j]);
                assert(k == s.len() || is_space(s[k as int]));
                lemma_head_token_len(s, k);
                assert(s.take(k as int) =~= t@.subrange(start as int, i as int));
                assert(s.skip(k as int) =~= t@.skip(i as int));
                assert(s.len() > 0);
                assert(!is_space(s[0]));
                assert(tokens_of(s) == seq![s.take(head_token_len(s) as int)] + tokens_of(
                    s.skip(head_token_len(s) as int),
                ));
                assert(seq![s.take(k as int)] =~= seq![tok@]);
                assert(tokens_of(s) == seq![tok@] + tokens_of(t@.skip(i as int)));
                assert(out@.push(tok).map_values(|v: Vec<u8>| v@) =~= out@.map_values(
                    |v: Vec<u8>| v@,
                ).push(tok@));
                assert(out@.map_values(|v: Vec<u8>| v@).push(tok@) + tokens_of(t@.skip(i as int))
                    =~= out@.map_values(|v: Vec<u8>| v@) + tokens_of(s));
            }
            out.push(tok);
        }
    }
    proof {
        assert(tokens_of(t@.skip(t@.len() as int)) =~= Seq::<Seq<u8>>::empty());
        assert(out@.map_values(|v: Vec<u8>| v@) =~= tokens_of(t@));
    }
    out
}

/// Whether two byte vectors hold the same bytes.
fn eq_bytes(a: &Vec<u8>, b: &Vec<u8>) -> (r: bool)
    ensures
        r == (a@ == b@),
{
    if a.len() != b.len() {
        proof {
            assert(a@ != b@);
        }
        return false;
    }
    let mut i: usize = 0;
    while i < a.len()
        invariant
            i <= a@.len(),
            a@.len() == b@.len(),
            forall|j: int| 0 <= j < i ==> a@[j] == b@[j],
        decreases a@.len() - i,
    {
        if a[i] != b[i] {
            proof {
                assert(a@ != b@);
            }
            return false;
        }
        i += 1;
    }
    proof {
        assert(a@ =~= b@);
    }
    true
}

/// Classifies one inbound frame.
pub fn parse_frame(t: &[u8]) -> (r: ParsedFrame)
    ensures
        r == frame_of(t@),
{
    let toks = tokenize(t);
    let ghost gt = tokens_of(t@);
    if toks.len() == 0 {
        return ParsedFrame::Ignored;
    }
    proof {
        assert(gt[0] == toks@.map_values(|v: Vec<u8>| v@)[0]);
    }
    let muted: Vec<u8> = vec![109u8, 117u8, 116u8, 101u8, 100u8];
    let unmuted: Vec<u8> = vec![117u8, 110u8, 109u8, 117u8, 116u8, 101u8, 100u8];
    let resp: Vec<u8> = vec![82u8, 69u8, 83u8, 80u8];
    let tru: Vec<u8> = vec![116u8, 114u8, 117u8, 101u8];
    let fal: Vec<u8> = vec![102u8, 97u8, 108u8, 115u8, 101u8];
    proof {
        assert(muted@ =~= muted_token());
        assert(unmuted@ =~= unmuted_token());
        assert(resp@ =~= resp_token());
        assert(tru@ =~= true_token());
        assert(fal@ =~= false_token());
    }
    if toks.len() == 1 && eq_bytes(&toks[0], &muted) {
        return ParsedFrame::Push { kind: MuteKind::Muted };
    }
    if toks.len() == 1 && eq_bytes(&toks[0], &unmuted) {
        return ParsedFrame::Push { kind: MuteKind::Unmuted };
    }
    if !eq_bytes(&toks[0], &resp) {
        return ParsedFrame::Ignored;
    }
    if toks.len() != 3 {
        return ParsedFrame::Violation;
    }
    proof {
        assert(gt[1] == toks@.map_values(|v: Vec<u8>| v@)[1]);
        assert(gt[2] == toks@.map_values(|v: Vec<u8>| v@)[2]);
    }
    let cid = match parse_id(toks[1].as_slice()) {
        Some(c) => c,
        None => {
            return ParsedFrame::Violation;
        },
    };
    let value: bool;
    if eq_bytes(&toks[2], &tru) {
        value = true;
    } else if eq_bytes(&toks[2], &fal) {
        value = false;
    } else {
        return ParsedFrame::Violation;
    }
    ParsedFrame::Resp { correlation: cid, muted: value }
}

/// The instruction frame `mute`.
pub open spec fn mute_frame() -> Seq<u8> {
    seq![109u8, 117u8, 116u8, 101u8]
}

/// The instruction frame `unmute`.
pub open spec fn unmute_frame() -> Seq<u8> {
    seq![117u8, 110u8, 109u8, 117u8, 116u8, 101u8]
}

/// The query frame `GET SETTING MUTE <correlation-id>`.
pub open spec fn query_frame(cid: u128) -> Seq<u8> {
    seq![
        71u8,
        69u8,
        84u8,
        32u8,
        83u8,
        69u8,
        84u8,
        84u8,
        73u8,
        78u8,
        71u8,
        32u8,
        77u8,
        85u8,
        84u8,
        69u8,
        32u8,
    ] + id_text(cid)
}

/// The greeting frame `Your UUID is <watcher-id>`.
pub open spec fn greeting_frame(id: u128) -> Seq<u8> {
    seq![89u8, 111u8, 117u8, 114u8, 32u8, 85u8, 85u8, 73u8, 68u8, 32u8, 105u8, 115u8, 32u8]
        + id_text(id)
}

/// The state-push frame a subscriber is sent for one state event.
pub open spec fn state_frame(k: MuteKind) -> Seq<u8> {
    match k {
        MuteKind::Muted => muted_token(),
        MuteKind::Unmuted => unmuted_token(),
    }
}

/// Encodes a state event for a subscriber session.
pub fn encode_state(k: MuteKind) -> (r: Vec<u8>)
    ensures
        r@ == state_frame(k),
{
    let r: Vec<u8> = match k {
        MuteKind::Muted => vec![109u8, 117u8, 116u8, 101u8, 100u8],
        MuteKind::Unmuted => vec![117u8, 110u8, 109u8, 117u8, 116u8, 101u8, 100u8],
    };
    proof {
        assert(r@ =~= state_frame(k));
    }
    r
}

/// Encodes the `mute` instruction.
pub fn encode_mute() -> (r: Vec<u8>)
    ensures
        r@ == mute_frame(),
{
    let r: Vec<u8> = vec![109u8, 117u8, 116u8, 101u8];
    proof {
        assert(r@ =~= mute_frame());
    }
    r
}

/// Encodes the `unmute` instruction.
pub fn encode_unmute() -> (r: Vec<u8>)
    ensures
        r@ == unmute_frame(),
{
    let r: Vec<u8> = vec![117u8, 110u8, 109u8, 117u8, 116u8, 101u8];
    proof {
        assert(r@ =~= unmute_frame());
    }
    r
}

/// Encodes the query instruction embedding `cid`.
pub fn encode_query(cid: u128) -> (r: Vec<u8>)
    ensures
        r@ == query_frame(cid),
{
    let mut r: Vec<u8> = vec![
        71u8,
        69u8,
        84u8,
        32u8,
        83u8,
        69u8,
        84u8,
        84u8,
        73u8,
        78u8,
        71u8,
        32u8,
        77u8,
        85u8,
        84u8,
        69u8,
        32u8,
    ];
    let mut id = format_id(cid);
    r.append(&mut id);
    proof {
        assert(r@ =~= query_frame(cid));
    }
    r
}

/// Encodes the greeting that hands a watcher its identifier.
pub fn encode_greeting(id: u128) -> (r: Vec<u8>)
    ensures
        r@ == greeting_frame(id),
{
    let mut r: Vec<u8> = vec![
        89u8,
        111u8,
        117u8,
        114u8,
        32u8,
        85u8,
        85u8,
        73u8,
        68u8,
        32u8,
        105u8,
        115u8,
        32u8,
    ];
    let mut txt = format_id(id);
    r.append(&mut txt);
    proof {
        assert(r@ =~= greeting_frame(id));
    }
    r
}

} // verus!
