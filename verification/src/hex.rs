//! Base-16 text: reading a run of digits as a number, and writing a number as digits.

use vstd::prelude::*;

verus! {

/// The value of a base-16 digit, in either case; `None` for any other character.
pub open spec fn hex_digit(c: char) -> Option<nat> {
    if '0' <= c <= '9' {
        Some((c as u32 - '0' as u32) as nat)
    } else if 'a' <= c <= 'f' {
        Some((c as u32 - 'a' as u32 + 10) as nat)
    } else if 'A' <= c <= 'F' {
        Some((c as u32 - 'A' as u32 + 10) as nat)
    } else {
        None
    }
}

/// A text that is made of base-16 digits, and of at least one.
pub open spec fn is_hex(t: Seq<char>) -> bool {
    &&& t.len() > 0
    &&& forall|i: int| 0 <= i < t.len() ==> (#[trigger] hex_digit(t[i])) is Some
}

/// The number that a run of base-16 digits denotes, most significant digit first. A character
/// that is no digit counts as zero.
pub open spec fn hex_value(t: Seq<char>) -> nat
    decreases t.len(),
{
    if t.len() == 0 {
        0
    } else {
        16 * hex_value(t.drop_last()) + match hex_digit(t.last()) {
            Some(d) => d,
            None => 0,
        }
    }
}

/// The 64-bit number that `t` denotes in base 16: `None` where `t` is empty, holds a
/// character that is no digit, or denotes a number beyond 64 bits.
pub open spec fn parse_hex(t: Seq<char>) -> Option<u64> {
    if is_hex(t) && hex_value(t) <= u64::MAX {
        Some(hex_value(t) as u64)
    } else {
        None
    }
}

/// The digit that stands for `d`, in upper or lower case.
pub open spec fn hex_char(d: nat, upper: bool) -> char {
    if d < 10 {
        ('0' as u32 + d) as char
    } else if upper {
        ('A' as u32 + d - 10) as char
    } else {
        ('a' as u32 + d - 10) as char
    }
}

/// The base-16 digits of `v` without leading zeros; the single digit `0` for zero.
pub open spec fn hex_digits(v: nat, upper: bool) -> Seq<char>
    decreases v,
{
    if v < 16 {
        seq![hex_char(v, upper)]
    } else {
        hex_digits(v / 16, upper).push(hex_char(v % 16, upper))
    }
}

/// The text that stands for a value read from memory: `0x` and the upper-case digits of `v`.
pub open spec fn hex_text(v: u64) -> Seq<char> {
    seq!['0', 'x'] + hex_digits(v as nat, true)
}

/// A digit written for a value below 16 reads back as that value.
pub proof fn lemma_hex_char_digit(d: nat, upper: bool)
    requires
        d < 16,
    ensures
        hex_digit(hex_char(d, upper)) == Some(d),
        hex_char(d, upper) as u32 <= 0x7f,
        crate::classes::is_ascii_word(hex_char(d, upper)),
{
}

/// The value of a text is at least the value of each of its prefixes.
pub proof fn lemma_hex_value_prefix(t: Seq<char>, k: int)
    requires
        0 <= k <= t.len(),
    ensures
        hex_value(t.take(k)) <= hex_value(t),
    decreases t.len() - k,
{
    if k < t.len() {
        lemma_hex_value_prefix(t, k + 1);
        assert(t.take(k + 1).drop_last() =~= t.take(k));
    } else {
        assert(t.take(k) =~= t);
    }
}

/// Reading what was written gives the number back: the digits of `v` are base-16 digits,
/// ASCII word characters all, and denote `v`.
pub proof fn lemma_hex_round_trip(v: nat, upper: bool)
    ensures
        is_hex(hex_digits(v, upper)),
        hex_value(hex_digits(v, upper)) == v,
        forall|i: int|
            0 <= i < hex_digits(v, upper).len() ==> crate::classes::is_word(
                #[trigger] hex_digits(v, upper)[i],
            ),
    decreases v,
{
    let t = hex_digits(v, upper);
    if v < 16 {
        lemma_hex_char_digit(v, upper);
        assert(t.drop_last() =~= Seq::<char>::empty());
        assert(hex_value(t.drop_last()) == 0);
    } else {
        lemma_hex_round_trip(v / 16, upper);
        lemma_hex_char_digit(v % 16, upper);
        assert(t.drop_last() =~= hex_digits(v / 16, upper));
    }
}

/// The value of a base-16 digit.
pub fn hex_digit_value(c: char) -> (r: Option<u8>)
    ensures
        match r {
            Some(d) => hex_digit(c) == Some(d as nat),
            None => hex_digit(c) is None,
        },
{
    let n: u32 = c as u32;
    if 0x30 <= n && n <= 0x39 {
        Some((n - 0x30) as u8)
    } else if 0x61 <= n && n <= 0x66 {
        Some((n - 0x61 + 10) as u8)
    } else if 0x41 <= n && n <= 0x46 {
        Some((n - 0x41 + 10) as u8)
    } else {
        None
    }
}

/// Reads `text` as a 64-bit number in base 16.
pub fn parse_hex_digits(text: &[char]) -> (r: Option<u64>)
    ensures
        r == parse_hex(text@),
{
    let ghost t = text@;
    if text.len() == 0 {
        return None;
    }
    let mut acc: u64 = 0;
    let mut i: usize = 0;
    while i < text.len()
        invariant
            i <= text@.len(),
            t == text@,
            acc == hex_value(t.take(i as int)),
            forall|k: int| 0 <= k < i ==> (#[trigger] hex_digit(t[k])) is Some,
        decreases text@.len() - i,
    {
        proof {
            assert(t.take(i + 1).drop_last() =~= t.take(i as int));
            lemma_hex_value_prefix(t, i + 1);
        }
        match hex_digit_value(text[i]) {
            None => {
                assert(hex_digit(t[i as int]) is None);
                return None;
            },
            Some(d) => {
                if acc > (u64::MAX - d as u64) / 16 {
                    return None;
                }
                acc = acc * 16 + d as u64;
            },
        }
        i = i + 1;
    }
    proof {
        assert(t.take(t.len() as int) =~= t);
    }
    Some(acc)
}

/// The digit that stands for `d`.
pub(crate) fn hex_digit_char(d: u8, upper: bool) -> (c: char)
    requires
        d < 16,
    ensures
        c == hex_char(d as nat, upper),
{
    if d < 10 {
        (0x30 + d) as char
    } else if upper {
        (0x41 + d - 10) as char
    } else {
        (0x61 + d - 10) as char
    }
}

/// Appends the base-16 digits of `v` to `out`.
pub fn push_hex(out: &mut Vec<char>, v: u64, upper: bool)
    ensures
        final(out)@ == old(out)@ + hex_digits(v as nat, upper),
    decreases v,
{
    if v >= 16 {
        push_hex(out, v / 16, upper);
    }
    out.push(hex_digit_char((v % 16) as u8, upper));
    proof {
        assert(final(out)@ =~= old(out)@ + hex_digits(v as nat, upper));
    }
}

} // verus!
