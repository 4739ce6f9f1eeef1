//! Signed decimal numbers as text.

use vstd::prelude::*;
use vstd::slice::slice_subrange;

verus! {

/// The value of a decimal digit; `None` for any other character.
pub open spec fn decimal_digit(c: char) -> Option<nat> {
    if '0' <= c <= '9' {
        Some((c as u32 - '0' as u32) as nat)
    } else {
        None
    }
}

/// A text that is made of decimal digits, and of at least one.
pub open spec fn is_decimal(t: Seq<char>) -> bool {
    &&& t.len() > 0
    &&& forall|i: int| 0 <= i < t.len() ==> (#[trigger] decimal_digit(t[i])) is Some
}

/// The number that a run of decimal digits denotes. A character that is no digit counts as
/// zero.
pub open spec fn decimal_value(t: Seq<char>) -> nat
    decreases t.len(),
{
    if t.len() == 0 {
        0
    } else {
        10 * decimal_value(t.drop_last()) + match decimal_digit(t.last()) {
            Some(d) => d,
            None => 0,
        }
    }
}

/// The number that `t` denotes: an optional `+` or `-` and decimal digits after it. `None`
/// where the digits are missing, a character is no digit, or the number does not fit in 64
/// bits with a sign.
pub open spec fn parse_i64(t: Seq<char>) -> Option<i64> {
    let negative = t.len() > 0 && t[0] == '-';
    let digits = if t.len() > 0 && (t[0] == '-' || t[0] == '+') {
        t.skip(1)
    } else {
        t
    };
    let number = if negative {
        -(decimal_value(digits) as int)
    } else {
        decimal_value(digits) as int
    };
    if is_decimal(digits) && i64::MIN <= number <= i64::MAX {
        Some(number as i64)
    } else {
        None
    }
}

/// The value of a text is at least the value of each of its prefixes.
pub proof fn lemma_decimal_value_prefix(t: Seq<char>, k: int)
    requires
        0 <= k <= t.len(),
    ensures
        decimal_value(t.take(k)) <= decimal_value(t),
    decreases t.len() - k,
{
    if k < t.len() {
        lemma_decimal_value_prefix(t, k + 1);
        assert(t.take(k + 1).drop_last() =~= t.take(k));
    } else {
        assert(t.take(k) =~= t);
    }
}

/// The value of a decimal digit.
pub fn decimal_digit_value(c: char) -> (r: Option<u8>)
    ensures
        match r {
            Some(d) => decimal_digit(c) == Some(d as nat),
            None => decimal_digit(c) is None,
        },
{
    let n: u32 = c as u32;
    if 0x30 <= n && n <= 0x39 {
        Some((n - 0x30) as u8)
    } else {
        None
    }
}

/// Reads `text` as decimal digits that denote a number of at most `limit`.
fn read_magnitude(text: &[char], limit: u64) -> (r: Option<u64>)
    ensures
        r == if is_decimal(text@) && decimal_value(text@) <= limit {
            Some(decimal_value(text@) as u64)
        } else {
            None
        },
{
    let ghost t = text@;
    if text.len() == 0 {
        return None;
    }
    let mut acc: u64 = 0;
    let mut i: usize = 0;
    while i < text.len()
        invariant
            i <= text@.len(),
            t == text@,
            acc == decimal_value(t.take(i as int)),
            acc <= limit,
            forall|k: int| 0 <= k < i ==> (#[trigger] decimal_digit(t[k])) is Some,
        decreases text@.len() - i,
    {
        proof {
            assert(t.take(i + 1).drop_last() =~= t.take(i as int));
            lemma_decimal_value_prefix(t, i + 1);
        }
        match decimal_digit_value(text[i]) {
            None => {
                assert(decimal_digit(t[i as int]) is None);
                return None;
            },
            Some(digit) => {
                let d: u64 = digit as u64;
                if d > limit || acc > (limit - d) / 10 {
                    return None;
                }
                acc = acc * 10 + d;
            },
        }
        i = i + 1;
    }
    proof {
        assert(t.take(t.len() as int) =~= t);
    }
    Some(acc)
}

/// Reads `text` as a signed decimal number of 64 bits.
pub fn read_i64(text: &[char]) -> (r: Option<i64>)
    ensures
        r == parse_i64(text@),
{
    if text.len() > 0 && text[0] == '-' {
        match read_magnitude(slice_subrange(text, 1, text.len()), 0x8000_0000_0000_0000) {
            Some(m) => {
                if m == 0x8000_0000_0000_0000 {
                    Some(i64::MIN)
                } else {
                    Some(-(m as i64))
                }
            },
            None => None,
        }
    } else if text.len() > 0 && text[0] == '+' {
        match read_magnitude(slice_subrange(text, 1, text.len()), 0x7fff_ffff_ffff_ffff) {
            Some(m) => Some(m as i64),
            None => None,
        }
    } else {
        match read_magnitude(text, 0x7fff_ffff_ffff_ffff) {
            Some(m) => Some(m as i64),
            None => None,
        }
    }
}

} // verus!
