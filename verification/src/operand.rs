//! The operands of a flat expression: where each one starts and ends, and the sign before it.

use vstd::prelude::*;
use crate::classes::{
    has_class, in_class, lemma_run_end, lemma_run_end_within, run_end, skip_run, CharClass,
};

verus! {

/// The sign that stands before an operand.
#[derive(Clone, Copy, Debug, PartialEq, Eq, Structural)]
pub enum Sign {
    /// No sign: the operand is added, as after `+`.
    Implicit,
    /// `+`: the operand is added.
    Plus,
    /// `-`: the operand is subtracted.
    Minus,
}

/// One operand as it stands in a text: its sign, and where its own text starts and ends.
pub struct Span {
    pub sign: Sign,
    pub start: int,
    pub end: int,
}

/// One operand of an expression: its sign and its text.
pub struct Operand {
    pub sign: Sign,
    pub text: Seq<char>,
}

/// Where the dot-separated parts that follow an operand's head end: each part is a dot and a
/// run of one or more word characters, and `i` is where the first dot would stand.
pub open spec fn parts_end(s: Seq<char>, i: int) -> int
    decreases s.len() - i,
{
    if 0 <= i && i + 1 < s.len() && s[i] == '.' && in_class(CharClass::Word, s[i + 1]) {
        let j = run_end(s, CharClass::Word, i + 1);
        // A run ends after its start and inside the text: the test is for termination only.
        if i < j <= s.len() {
            parts_end(s, j)
        } else {
            i
        }
    } else {
        i
    }
}

/// Where the operand that starts at `i` ends: after its head, the longest run of word
/// characters and hyphens, and after the dot-separated parts that follow the head.
pub open spec fn operand_end(s: Seq<char>, i: int) -> int {
    parts_end(s, run_end(s, CharClass::Name, i))
}

/// The sign that a character stands for.
pub open spec fn sign_of(c: char) -> Sign {
    if c == '+' {
        Sign::Plus
    } else if c == '-' {
        Sign::Minus
    } else {
        Sign::Implicit
    }
}

/// The operand that is read when reading starts at `i`, if one can be read there: an
/// optional sign, white space, and the operand's text. A hyphen that no operand follows is
/// itself the start of an operand's text.
pub open spec fn operand_at(s: Seq<char>, i: int) -> Option<Span> {
    let lead = s[i];
    let signed = lead == '+' || lead == '-';
    let start = run_end(
        s,
        CharClass::Space,
        if signed {
            i + 1
        } else {
            i
        },
    );
    if start < s.len() && in_class(CharClass::Name, s[start]) {
        Some(Span { sign: sign_of(lead), start, end: operand_end(s, start) })
    } else if lead == '-' {
        Some(Span { sign: Sign::Implicit, start: i, end: operand_end(s, i) })
    } else {
        None
    }
}

/// The first operand that can be read at `i` or after it.
pub open spec fn next_operand(s: Seq<char>, i: int) -> Option<Span>
    decreases s.len() - i,
{
    if i < 0 || i >= s.len() {
        None
    } else {
        match operand_at(s, i) {
            Some(m) => Some(m),
            None => next_operand(s, i + 1),
        }
    }
}

/// The operands of `s` from `i` on, in order: each is the first that can be read after the
/// end of the one before it.
pub open spec fn operands_from(s: Seq<char>, i: int) -> Seq<Operand>
    decreases s.len() - i,
{
    match next_operand(s, i) {
        // An operand ends after `i` and inside the text: the test is for termination only.
        Some(m) => if i < m.end <= s.len() {
            seq![Operand { sign: m.sign, text: s.subrange(m.start, m.end) }] + operands_from(
                s,
                m.end,
            )
        } else {
            Seq::empty()
        },
        None => Seq::empty(),
    }
}

/// The operands of a flat expression.
pub open spec fn operands(s: Seq<char>) -> Seq<Operand> {
    operands_from(s, 0)
}

/// The dot-separated parts end at or after their start, and inside the text.
pub proof fn lemma_parts_end(s: Seq<char>, i: int)
    requires
        0 <= i <= s.len(),
    ensures
        i <= parts_end(s, i) <= s.len(),
    decreases s.len() - i,
{
    if i + 1 < s.len() && s[i] == '.' && in_class(CharClass::Word, s[i + 1]) {
        let j = run_end(s, CharClass::Word, i + 1);
        lemma_run_end(s, CharClass::Word, i + 1);
        lemma_parts_end(s, j);
    }
}

/// An operand that starts on a name character is not empty and ends inside the text.
pub proof fn lemma_operand_end(s: Seq<char>, i: int)
    requires
        0 <= i < s.len(),
        in_class(CharClass::Name, s[i]),
    ensures
        i < operand_end(s, i) <= s.len(),
{
    lemma_run_end(s, CharClass::Name, i);
    lemma_parts_end(s, run_end(s, CharClass::Name, i));
}

/// An operand read at `i` lies at or after `i`, is not empty and ends inside the text.
pub proof fn lemma_operand_at(s: Seq<char>, i: int)
    requires
        0 <= i < s.len(),
    ensures
        operand_at(s, i) matches Some(m) ==> i <= m.start < m.end <= s.len() && in_class(
            CharClass::Name,
            s[m.start],
        ),
{
    let lead = s[i];
    let signed = lead == '+' || lead == '-';
    let from = if signed {
        i + 1
    } else {
        i
    };
    lemma_run_end(s, CharClass::Space, from);
    let start = run_end(s, CharClass::Space, from);
    if start < s.len() && in_class(CharClass::Name, s[start]) {
        lemma_operand_end(s, start);
    } else if lead == '-' {
        lemma_operand_end(s, i);
    }
}

/// The next operand from `i` lies at or after `i`, is not empty and ends inside the text.
pub proof fn lemma_next_operand(s: Seq<char>, i: int)
    requires
        0 <= i,
    ensures
        next_operand(s, i) matches Some(m) ==> i <= m.start < m.end <= s.len() && in_class(
            CharClass::Name,
            s[m.start],
        ),
    decreases s.len() - i,
{
    if i < s.len() {
        lemma_operand_at(s, i);
        if operand_at(s, i) is None {
            lemma_next_operand(s, i + 1);
        }
    }
}

/// The operands from `i` on are the next operand, where there is one, and the operands from
/// its end on.
pub proof fn lemma_operands_from(s: Seq<char>, i: int)
    requires
        0 <= i,
    ensures
        operands_from(s, i) == match next_operand(s, i) {
            Some(m) => seq![Operand { sign: m.sign, text: s.subrange(m.start, m.end) }]
                + operands_from(s, m.end),
            None => Seq::empty(),
        },
{
    lemma_next_operand(s, i);
}

/// No operand can be read inside a run of white space that no operand follows.
pub proof fn lemma_no_operand_in_space(s: Seq<char>, i: int, j: int)
    requires
        0 <= i <= j <= s.len(),
        j == run_end(s, CharClass::Space, i),
        !(j < s.len() && in_class(CharClass::Name, s[j])),
    ensures
        next_operand(s, i) == next_operand(s, j),
    decreases j - i,
{
    if i < j {
        lemma_run_end(s, CharClass::Space, i);
        assert(in_class(CharClass::Space, s[i]));
        lemma_run_end_within(s, CharClass::Space, i, i + 1);
        lemma_no_operand_in_space(s, i + 1, j);
    }
}

/// An operand as the scanner hands it out: positions in the text that was scanned.
#[derive(Clone, Copy, Debug)]
pub struct Found {
    pub sign: Sign,
    pub start: usize,
    pub end: usize,
}

impl View for Found {
    type V = Span;

    open spec fn view(&self) -> Span {
        Span { sign: self.sign, start: self.start as int, end: self.end as int }
    }
}

/// Where the operand that starts at `i` ends.
pub(crate) fn scan_operand_end(s: &[char], i: usize) -> (end: usize)
    requires
        i < s@.len(),
        in_class(CharClass::Name, s@[i as int]),
    ensures
        end == operand_end(s@, i as int),
        i < end <= s@.len(),
{
    proof {
        lemma_operand_end(s@, i as int);
    }
    let mut j: usize = skip_run(s, CharClass::Name, i);
    while j < s.len() && s[j] == '.' && j + 1 < s.len() && has_class(CharClass::Word, s[j + 1])
        invariant
            i < j <= s@.len(),
            parts_end(s@, j as int) == operand_end(s@, i as int),
        decreases s@.len() - j,
    {
        proof {
            lemma_run_end(s@, CharClass::Word, j + 1);
        }
        j = skip_run(s, CharClass::Word, j + 1);
    }
    j
}

/// The first operand of `s` that can be read at `i` or after it.
pub fn find_operand(s: &[char], i: usize) -> (r: Option<Found>)
    ensures
        match r {
            Some(m) => next_operand(s@, i as int) == Some(m@) && i <= m.start < m.end
                <= s@.len(),
            None => next_operand(s@, i as int) is None,
        },
{
    let n = s.len();
    if i >= n {
        return None;
    }
    let mut k: usize = i;
    while k < n
        invariant
            n == s@.len(),
            i <= k <= n,
            next_operand(s@, k as int) == next_operand(s@, i as int),
        decreases n - k,
    {
        let lead = s[k];
        let signed = lead == '+' || lead == '-';
        let from = if signed {
            k + 1
        } else {
            k
        };
        let start = skip_run(s, CharClass::Space, from);
        proof {
            lemma_operand_at(s@, k as int);
        }
        if start < n && has_class(CharClass::Name, s[start]) {
            let end = scan_operand_end(s, start);
            let sign = if lead == '+' {
                Sign::Plus
            } else if lead == '-' {
                Sign::Minus
            } else {
                Sign::Implicit
            };
            return Some(Found { sign, start, end });
        } else if lead == '-' {
            let end = scan_operand_end(s, k);
            return Some(Found { sign: Sign::Implicit, start: k, end });
        } else if signed {
            k = k + 1;
        } else {
            proof {
                lemma_no_operand_in_space(s@, k as int, start as int);
            }
            k = if start > k {
                start
            } else {
                k + 1
            };
        }
    }
    None
}

} // verus!
