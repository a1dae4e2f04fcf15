//! 128-bit record identifiers, written as hyphenated lowercase hexadecimal.
use vstd::prelude::*;

use crate::text::{digit_char, is_space};
use vstd::arithmetic::div_mod::lemma_mod_breakdown;

verus! {

pub open spec fn hex_char(d: int) -> char {
    if d < 10 {
        digit_char(d)
    } else if d == 10 {
        'a'
    } else if d == 11 {
        'b'
    } else if d == 12 {
        'c'
    } else if d == 13 {
        'd'
    } else if d == 14 {
        'e'
    } else {
        'f'
    }
}

/// The last `k` hexadecimal digits of `v`, most significant first.
pub open spec fn hex_digits(v: nat, k: nat) -> Seq<char>
    decreases k,
{
    if k == 0 {
        seq![]
    } else {
        hex_digits(v / 16, (k - 1) as nat).push(hex_char((v % 16) as int))
    }
}

/// The hyphenated writing of `u`: groups of 8, 4, 4, 4 and 12 lowercase hex digits.
pub open spec fn uid_text(u: u128) -> Seq<char> {
    let h = hex_digits(u as nat, 32);
    h.subrange(0, 8) + seq!['-'] + h.subrange(8, 12) + seq!['-'] + h.subrange(12, 16) + seq!['-']
        + h.subrange(16, 20) + seq!['-'] + h.subrange(20, 32)
}

pub open spec fn is_hex(c: char) -> bool {
    (48 <= (c as u32) <= 57) || (97 <= (c as u32) <= 102) || (65 <= (c as u32) <= 70)
}

pub open spec fn hex_val(c: char) -> int {
    if (c as u32) <= 57 {
        (c as u32) - 48
    } else if (c as u32) <= 70 {
        (c as u32) - 55
    } else {
        (c as u32) - 87
    }
}

/// The number that the hexadecimal digits `s` write.
pub open spec fn hex_value(s: Seq<char>) -> int
    decreases s.len(),
{
    if s.len() == 0 {
        0
    } else {
        hex_value(s.drop_last()) * 16 + hex_val(s.last())
    }
}

/// The 32 digits of a hyphenated identifier, without the hyphens.
pub open spec fn uid_hex_part(s: Seq<char>) -> Seq<char> {
    s.subrange(0, 8) + s.subrange(9, 13) + s.subrange(14, 18) + s.subrange(19, 23) + s.subrange(
        24,
        36,
    )
}

/// Groups of 8, 4, 4, 4 and 12 hex digits (either case) joined by hyphens.
pub open spec fn is_hyphenated(s: Seq<char>) -> bool {
    &&& s.len() == 36
    &&& s[8] == '-' && s[13] == '-' && s[18] == '-' && s[23] == '-'
    &&& forall|i: int| 0 <= i < 32 ==> is_hex(#[trigger] uid_hex_part(s)[i])
}

/// What `uuid::Uuid::parse_str` reads from a text that is not in hyphenated form
/// (braced, URN or plain forms, or nothing).
pub uninterp spec fn uid_of_other_text(s: Seq<char>) -> Option<u128>;

/// What `uuid::Uuid::parse_str` reads from a text.
pub open spec fn uid_of_text(s: Seq<char>) -> Option<u128> {
    if is_hyphenated(s) {
        Some(hex_value(uid_hex_part(s)) as u128)
    } else {
        uid_of_other_text(s)
    }
}

/// Relies on `uuid::Uuid::parse_str` and `Uuid::as_u128`: a text in hyphenated
/// form reads as the big-endian value of its 32 hex digits; what any other text
/// reads as depends on the text alone.
#[verifier::external_body]
pub(crate) fn parse_uid(s: &str) -> (r: Option<u128>)
    ensures
        r == (if is_hyphenated(s@) {
            Some(hex_value(uid_hex_part(s@)) as u128)
        } else {
            uid_of_other_text(s@)
        }),
{
    match uuid::Uuid::parse_str(s) {
        Ok(u) => Some(u.as_u128()),
        Err(_) => None,
    }
}

pub open spec fn pow16(k: nat) -> int
    decreases k,
{
    if k == 0 {
        1
    } else {
        16 * pow16((k - 1) as nat)
    }
}

proof fn lemma_hex_char(d: int)
    requires
        0 <= d < 16,
    ensures
        is_hex(hex_char(d)),
        hex_val(hex_char(d)) == d,
        !is_space(hex_char(d)),
        hex_char(d) != ';' && hex_char(d) != '=' && hex_char(d) != '-',
{
    assert(('0' as u32) == 48);
    assert(('a' as u32) == 97);
}

proof fn lemma_pow16_pos(k: nat)
    ensures
        pow16(k) > 0,
    decreases k,
{
    if k > 0 {
        lemma_pow16_pos((k - 1) as nat);
    }
}

/// The digits of `v` read back as `v` modulo `16^k`, and are hex digits.
proof fn lemma_hex_digits(v: nat, k: nat)
    ensures
        hex_digits(v, k).len() == k,
        hex_value(hex_digits(v, k)) == (v as int) % pow16(k),
        forall|i: int| 0 <= i < k ==> is_hex(#[trigger] hex_digits(v, k)[i]) && !is_space(
            hex_digits(v, k)[i],
        ) && hex_digits(v, k)[i] != ';' && hex_digits(v, k)[i] != '=' && hex_digits(v, k)[i]
            != '-',
    decreases k,
{
    if k > 0 {
        let h = hex_digits(v, k);
        lemma_hex_digits(v / 16, (k - 1) as nat);
        lemma_hex_char((v % 16) as int);
        assert(h.drop_last() =~= hex_digits(v / 16, (k - 1) as nat));
        lemma_pow16_pos((k - 1) as nat);
        lemma_mod_breakdown(v as int, 16, pow16((k - 1) as nat));
        assert forall|i: int| 0 <= i < k implies is_hex(#[trigger] h[i]) && !is_space(h[i])
            && h[i] != ';' && h[i] != '=' && h[i] != '-' by {
            if i < k - 1 {
                assert(h[i] == hex_digits(v / 16, (k - 1) as nat)[i]);
            }
        }
    } else {
        assert(v % 1 == 0);
    }
}

/// The written form of an identifier is plain text: hex digits and hyphens.
pub proof fn lemma_uid_text(u: u128)
    ensures
        uid_text(u).len() == 36,
        forall|i: int| 0 <= i < 36 ==> !is_space(#[trigger] uid_text(u)[i]) && uid_text(u)[i] != ';'
            && uid_text(u)[i] != '=',
        uid_of_text(uid_text(u)) == Some(u),
{
    let h = hex_digits(u as nat, 32);
    lemma_hex_digits(u as nat, 32);
    reveal_with_fuel(pow16, 33);
    assert(pow16(32) == 0x1_0000_0000_0000_0000_0000_0000_0000_0000);
    let t = uid_text(u);
    assert(uid_hex_part(t) =~= h);
    assert forall|i: int| 0 <= i < 36 implies !is_space(#[trigger] t[i]) && t[i] != ';' && t[i]
        != '=' by {
        if i < 8 {
            assert(t[i] == h[i]);
        } else if 8 < i < 13 {
            assert(t[i] == h[i - 1]);
        } else if 13 < i < 18 {
            assert(t[i] == h[i - 2]);
        } else if 18 < i < 23 {
            assert(t[i] == h[i - 3]);
        } else if 23 < i {
            assert(t[i] == h[i - 4]);
        }
    }
    assert(is_hyphenated(t));
}

/// Relies on `uuid::Uuid::from_u128` and its `Display`, which writes the hyphenated
/// lowercase form.
#[verifier::external_body]
pub(crate) fn uid_to_text(u: u128) -> (r: String)
    ensures
        r@ == uid_text(u),
{
    uuid::Uuid::from_u128(u).to_string()
}

/// Relies on `uuid::Uuid::new_v4`: a random identifier whose version and variant
/// bits are set, so it is never the all-zero one.
#[verifier::external_body]
pub(crate) fn new_uid() -> (r: u128)
    ensures
        r != 0,
{
    uuid::Uuid::new_v4().as_u128()
}

/// The hyphenated writing of an identifier.
pub fn format_uid(u: u128) -> (r: String)
    ensures
        r@ == uid_text(u),
{
    uid_to_text(u)
}

} // verus!
