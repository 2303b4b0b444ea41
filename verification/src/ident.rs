//! Opaque 128-bit identifiers and their canonical text form.
//!
//! Watcher identities and query correlation tokens are 128-bit values.  On
//! the wire they appear in the canonical hyphenated form: 32 lowercase hex
//! digits, most significant first, with dashes after the 8th, 12th, 16th and
//! 20th digit.  `format_id` and `parse_id` are verified inverses: parsing is
//! specified as a total spec function over byte sequences, and formatting is
//! proved to produce exactly the text that parses back to the value.

use vstd::arithmetic::div_mod::{lemma_mod_breakdown, lemma_small_mod};
use vstd::prelude::*;

verus! {

/// The nibbles of `n`, least significant first, padded or truncated to `k`.
pub open spec fn nibbles_of(n: nat, k: nat) -> Seq<nat>
    decreases k,
{
    if k == 0 {
        Seq::empty()
    } else {
        seq![n % 16] + nibbles_of(n / 16, (k - 1) as nat)
    }
}

/// The value of a digit sequence read most significant first.
pub open spec fn val_msb(s: Seq<nat>) -> nat
    decreases s.len(),
{
    if s.len() == 0 {
        0
    } else {
        val_msb(s.drop_last()) * 16 + s.last()
    }
}

pub open spec fn pow16(k: nat) -> nat
    decreases k,
{
    if k == 0 {
        1
    } else {
        16 * pow16((k - 1) as nat)
    }
}

/// The lowercase hex character of a digit below 16.
pub open spec fn hex_char(d: nat) -> u8 {
    if d < 10 {
        (48 + d) as u8
    } else {
        (87 + d) as u8
    }
}

pub open spec fn is_hex_char(b: u8) -> bool {
    (48 <= b && b <= 57) || (97 <= b && b <= 102)
}

/// The digit a lowercase hex character stands for.
pub open spec fn hex_char_val(b: u8) -> nat {
    if b <= 57 {
        (b - 48) as nat
    } else {
        (b - 87) as nat
    }
}

/// The four positions of the dashes in the 36-byte text.
pub open spec fn is_dash_pos(i: int) -> bool {
    i == 8 || i == 13 || i == 18 || i == 23
}

/// How many digits precede text position `i` (digit positions only).
pub open spec fn digit_index(i: int) -> int {
    if i < 8 {
        i
    } else if i < 13 {
        i - 1
    } else if i < 18 {
        i - 2
    } else if i < 23 {
        i - 3
    } else {
        i - 4
    }
}

/// How many digit positions lie strictly below text position `i`.
pub open spec fn digits_before(i: int) -> int {
    if i <= 8 {
        i
    } else if i <= 13 {
        i - 1
    } else if i <= 18 {
        i - 2
    } else if i <= 23 {
        i - 3
    } else {
        i - 4
    }
}

/// The text position of the `j`th digit, most significant first.
pub open spec fn text_pos(j: int) -> int {
    if j < 8 {
        j
    } else if j < 12 {
        j + 1
    } else if j < 16 {
        j + 2
    } else if j < 20 {
        j + 3
    } else {
        j + 4
    }
}

/// The canonical 36-byte text of `n`.
pub open spec fn id_text(n: u128) -> Seq<u8> {
    Seq::new(
        36,
        |i: int|
            if is_dash_pos(i) {
                45u8
            } else {
                hex_char(nibbles_of(n as nat, 32)[31 - digit_index(i)])
            },
    )
}

/// Whether `t` has the shape of a canonical identifier text.
pub open spec fn is_id_text(t: Seq<u8>) -> bool {
    &&& t.len() == 36
    &&& forall|i: int|
        0 <= i < 36 ==> (if is_dash_pos(i) {
            t[i] == 45u8
        } else {
            is_hex_char(t[i])
        })
}

/// The digits of a canonical text, most significant first.
pub open spec fn digits_of(t: Seq<u8>) -> Seq<nat> {
    Seq::new(32, |j: int| hex_char_val(t[text_pos(j)]))
}

/// What an identifier token on the wire stands for: `Some(n)` exactly when
/// `t` is the canonical text of `n`.
pub open spec fn id_of_text(t: Seq<u8>) -> Option<u128> {
    if is_id_text(t) {
        Some(val_msb(digits_of(t)) as u128)
    } else {
        None
    }
}

proof fn lemma_pow16_mono(j: nat, k: nat)
    requires
        j <= k,
    ensures
        pow16(j) <= pow16(k),
        1 <= pow16(j),
    decreases k,
{
    if k > 0 {
        if j == k {
            lemma_pow16_mono((j - 1) as nat, (k - 1) as nat);
        } else {
            lemma_pow16_mono(j, (k - 1) as nat);
        }
    }
}

proof fn lemma_nibbles_bounded(n: nat, k: nat)
    ensures
        nibbles_of(n, k).len() == k,
        forall|i: int| 0 <= i < k ==> nibbles_of(n, k)[i] < 16,
    decreases k,
{
    if k > 0 {
        lemma_nibbles_bounded(n / 16, (k - 1) as nat);
    }
}

/// Reading the nibbles of `n` most significant first gives back `n` modulo
/// `16^k`.
proof fn lemma_val_of_reversed_nibbles(n: nat, k: nat)
    ensures
        val_msb(Seq::new(k, |j: int| nibbles_of(n, k)[k - 1 - j])) == n % pow16(k),
    decreases k,
{
    let s = Seq::new(k, |j: int| nibbles_of(n, k)[k - 1 - j]);
    if k == 0 {
        assert(n % 1 == 0) by (nonlinear_arith);
    } else {
        let k1 = (k - 1) as nat;
        lemma_val_of_reversed_nibbles(n / 16, k1);
        let s1 = Seq::new(k1, |j: int| nibbles_of(n / 16, k1)[k1 - 1 - j]);
        assert(nibbles_of(n, k) == seq![n % 16] + nibbles_of(n / 16, k1));
        lemma_nibbles_bounded(n / 16, k1);
        assert(forall|i: int| 1 <= i < k ==> nibbles_of(n, k)[i] == nibbles_of(n / 16, k1)[i - 1]);
        assert(s.drop_last() =~= s1);
        assert(s.last() == nibbles_of(n, k)[0]);
        assert(nibbles_of(n, k)[0] == n % 16);
        assert(val_msb(s) == (n / 16 % pow16(k1)) * 16 + n % 16);
        lemma_pow16_mono(0, k1);
        lemma_mod_breakdown(n as int, 16, pow16(k1) as int);
        assert(n % (16 * pow16(k1)) == 16 * (n / 16 % pow16(k1)) + n % 16);
        assert(pow16(k) == 16 * pow16(k1));
    }
}

proof fn lemma_pow16_32()
    ensures
        pow16(32) == 0x100000000000000000000000000000000,
{
    reveal_with_fuel(pow16, 33);
    assert(pow16(32) == 0x100000000000000000000000000000000);
}

/// The canonical text of an identifier parses back to that identifier.
pub proof fn lemma_id_text_round_trip(n: u128)
    ensures
        id_of_text(id_text(n)) == Some(n),
{
    let t = id_text(n);
    let nb = nibbles_of(n as nat, 32);
    lemma_nibbles_bounded(n as nat, 32);
    assert forall|i: int| 0 <= i < 36 implies (if is_dash_pos(i) {
        t[i] == 45u8
    } else {
        is_hex_char(t[i])
    }) by {
        if !is_dash_pos(i) {
            assert(0 <= 31 - digit_index(i) < 32);
        }
    }
    assert(is_id_text(t));
    let rev = Seq::new(32, |j: int| nb[31 - j]);
    assert forall|j: int| 0 <= j < 32 implies digits_of(t)[j] == rev[j] by {
        let i = text_pos(j);
        assert(!is_dash_pos(i));
        assert(digit_index(i) == j);
        assert(t[i] == hex_char(nb[31 - j]));
        assert(hex_char_val(hex_char(nb[31 - j])) == nb[31 - j]);
    }
    assert(digits_of(t) =~= rev);
    lemma_val_of_reversed_nibbles(n as nat, 32);
    lemma_pow16_32();
    lemma_small_mod(n as nat, pow16(32));
}

/// Relies on `uuid::Uuid::new_v4` (and `Uuid::as_u128`, the big-endian value
/// of its sixteen bytes): a fresh identifier drawn from the operating
/// system's random number generator, with the version and variant bits
/// forced.  The value is random, so nothing is promised of it; every caller
/// checks the bits it gets against the identifiers it has already seen.
#[verifier::external_body]
pub(crate) fn random_id_bits() -> u128 {
    uuid::Uuid::new_v4().as_u128()
}

/// The canonical text of `n`, as bytes.
pub fn format_id(n: u128) -> (r: Vec<u8>)
    ensures
        r@ == id_text(n),
{
    let mut nb: Vec<u8> = Vec::new();
    let mut v: u128 = n;
    let mut i: usize = 0;
    while i < 32
        invariant
            i <= 32,
            nb@.len() == i,
            forall|j: int| 0 <= j < i ==> nb@[j] < 16,
            nibbles_of(n as nat, 32) == nb@.map_values(|b: u8| b as nat) + nibbles_of(
                v as nat,
                (32 - i) as nat,
            ),
        decreases 32 - i,
    {
        let d: u8 = (v % 16) as u8;
        proof {
            assert(nibbles_of(v as nat, (32 - i) as nat) == seq![(v as nat) % 16] + nibbles_of(
                (v as nat) / 16,
                (32 - i - 1) as nat,
            ));
            assert(nb@.push(d).map_values(|b: u8| b as nat) =~= nb@.map_values(|b: u8| b as nat)
                + seq![(v as nat) % 16]);
        }
        nb.push(d);
        v = v / 16;
        i += 1;
        proof {
            assert(nibbles_of(n as nat, 32) == nb@.map_values(|b: u8| b as nat) + nibbles_of(
                v as nat,
                (32 - i) as nat,
            ));
        }
    }
    proof {
        assert(nibbles_of(v as nat, 0) =~= Seq::<nat>::empty());
        assert(nibbles_of(n as nat, 32) =~= nb@.map_values(|b: u8| b as nat));
    }
    let mut out: Vec<u8> = Vec::new();
    let mut p: usize = 0;
    while p < 36
        invariant
            p <= 36,
            out@.len() == p,
            nb@.len() == 32,
            forall|j: int| 0 <= j < 32 ==> nb@[j] < 16,
            nibbles_of(n as nat, 32) == nb@.map_values(|b: u8| b as nat),
            forall|j: int| 0 <= j < p ==> out@[j] == id_text(n)[j],
        decreases 36 - p,
    {
        if p == 8 || p == 13 || p == 18 || p == 23 {
            out.push(45);
        } else {
            let di: usize = if p < 8 {
                p
            } else if p < 13 {
                p - 1
            } else if p < 18 {
                p - 2
            } else {
                if p < 23 {
                    p - 3
                } else {
                    p - 4
                }
            };
            let d: u8 = nb[31 - di];
            let c: u8 = if d < 10 {
                48 + d
            } else {
                87 + d
            };
            proof {
                assert(di == digit_index(p as int));
                assert(nibbles_of(n as nat, 32)[31 - di] == d as nat);
                assert(c == hex_char(d as nat));
            }
            out.push(c);
        }
        p += 1;
    }
    proof {
        assert(out@ =~= id_text(n));
    }
    out
}

/// Parses a canonical identifier text; `Some` exactly on canonical texts.
pub fn parse_id(t: &[u8]) -> (r: Option<u128>)
    ensures
        r == id_of_text(t@),
{
    if t.len() != 36 {
        return None;
    }
    let mut acc: u128 = 0;
    let mut i: usize = 0;
    let mut j: usize = 0;
    while i < 36
        invariant
            t@.len() == 36,
            i <= 36,
            j == digits_before(i as int),
            forall|k: int|
                0 <= k < i ==> (if is_dash_pos(k) {
                    t@[k] == 45u8
                } else {
                    is_hex_char(t@[k])
                }),
            acc as nat == val_msb(digits_of(t@).take(j as int)),
            acc < pow16(j as nat),
            j <= 32,
        decreases 36 - i,
    {
        let b: u8 = t[i];
        if i == 8 || i == 13 || i == 18 || i == 23 {
            if b != 45 {
                proof {
                    assert(!is_id_text(t@));
                }
                return None;
            }
        } else {
            let d: u8;
            if 48 <= b && b <= 57 {
                d = b - 48;
            } else if 97 <= b && b <= 102 {
                d = b - 87;
            } else {
                proof {
                    assert(!is_id_text(t@));
                }
                return None;
            }
            proof {
                assert(j < 32);
                lemma_pow16_mono((j + 1) as nat, 32);
                lemma_pow16_32();
                assert(acc * 16 + d < pow16((j + 1) as nat)) by (nonlinear_arith)
                    requires
                        acc < pow16(j as nat),
                        d < 16,
                        pow16((j + 1) as nat) == 16 * pow16(j as nat),
                ;
                assert(text_pos(j as int) == i);
                assert(b == t@[i as int]);
                assert(digits_of(t@)[j as int] == hex_char_val(t@[text_pos(j as int)]));
                assert(digits_of(t@)[j as int] == hex_char_val(b));
                assert(hex_char_val(b) == d as nat);
                assert(digits_of(t@).take(j as int + 1).drop_last() =~= digits_of(t@).take(j as int));
                assert(digits_of(t@).take(j as int + 1).last() == digits_of(t@)[j as int]);
                assert(val_msb(digits_of(t@).take(j as int + 1)) == val_msb(digits_of(t@).take(j as int)) * 16
                    + d as nat);
            }
            acc = acc * 16 + (d as u128);
            j += 1;
        }
        i += 1;
    }
    proof {
        assert(is_id_text(t@));
        assert(digits_of(t@).take(32) =~= digits_of(t@));
    }
    Some(acc)
}

} // verus!
