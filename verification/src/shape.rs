//! How operands are read in a text that is put together from parts: what stands after an
//! operand, what stands before it, and when a text is one operand as a whole.

use vstd::prelude::*;
use crate::classes::{in_class, is_word, lemma_run_end, lemma_run_end_is, run_end, CharClass};
use crate::operand::{
    lemma_next_operand, next_operand, operand_at, operand_end, operands, operands_from, parts_end,
    Operand, Sign, Span,
};

verus! {

/// A text that is one operand from its first character to its last: a head of word
/// characters and hyphens, and dot-separated parts of word characters after it.
pub open spec fn is_operand_text(t: Seq<char>) -> bool {
    &&& t.len() > 0
    &&& in_class(CharClass::Name, t[0])
    &&& operand_end(t, 0) == t.len()
}

/// An operand text whose first character is not read as a sign: it does not start with a
/// hyphen that a word character or another hyphen follows.
pub open spec fn reads_unsigned(t: Seq<char>) -> bool {
    t[0] == '-' ==> t.len() == 1 || !in_class(CharClass::Name, t[1])
}

/// An operand text with at least one dot-separated part after its head.
pub open spec fn has_parts(t: Seq<char>) -> bool {
    run_end(t, CharClass::Name, 0) < t.len()
}

/// A character that belongs to no operand and is neither white space nor a sign: where it
/// stands, an operand ends and none starts.
pub open spec fn is_separator(c: char) -> bool {
    &&& !in_class(CharClass::Space, c)
    &&& !in_class(CharClass::Name, c)
    &&& c != '.'
    &&& c != '+'
}

/// The span `m`, moved `by` characters to the right.
pub open spec fn shifted(m: Option<Span>, by: int) -> Option<Span> {
    match m {
        Some(m) => Some(Span { sign: m.sign, start: m.start + by, end: m.end + by }),
        None => None,
    }
}

/// A word character or a hyphen is no white space.
pub proof fn lemma_name_is_no_space(c: char)
    requires
        in_class(CharClass::Name, c),
    ensures
        !in_class(CharClass::Space, c),
        c != '+',
        c != '.',
{
}

/// A run in the first `n` characters of `s` ends where it ends in `s`, when it ends before
/// `n` or the character at `n` is outside the class.
pub proof fn lemma_run_end_prefix(s: Seq<char>, n: int, class: CharClass, i: int)
    requires
        0 <= i <= n <= s.len(),
        run_end(s.take(n), class, i) < n || n == s.len() || !in_class(class, s[n]),
    ensures
        run_end(s, class, i) == run_end(s.take(n), class, i),
{
    let a = s.take(n);
    let j = run_end(a, class, i);
    lemma_run_end(a, class, i);
    assert forall|k: int| i <= k < j implies in_class(class, #[trigger] s[k]) by {
        assert(a[k] == s[k]);
    }
    if j < n {
        assert(a[j] == s[j]);
    }
    lemma_run_end_is(s, class, i, j);
}

/// The dot-separated parts in the first `n` characters of `s` end where they end in `s`,
/// when the character at `n` is neither a word character nor a dot.
pub proof fn lemma_parts_end_prefix(s: Seq<char>, n: int, i: int)
    requires
        0 <= i <= n <= s.len(),
        n < s.len() ==> !is_word(s[n]) && s[n] != '.',
    ensures
        parts_end(s, i) == parts_end(s.take(n), i),
    decreases n - i,
{
    let a = s.take(n);
    if i + 1 < n && a[i] == '.' && is_word(a[i + 1]) {
        assert(a[i] == s[i] && a[i + 1] == s[i + 1]);
        lemma_run_end_prefix(s, n, CharClass::Word, i + 1);
        lemma_run_end(a, CharClass::Word, i + 1);
        let j = run_end(a, CharClass::Word, i + 1);
        lemma_parts_end_prefix(s, n, j);
    } else {
        if i + 1 < n {
            assert(a[i] == s[i] && a[i + 1] == s[i + 1]);
        } else if i < n {
            assert(a[i] == s[i]);
        }
    }
}

/// A run in `b` ends, in `pre + b`, as far after `pre` as it ends in `b`.
pub proof fn lemma_run_end_shift(pre: Seq<char>, b: Seq<char>, class: CharClass, i: int)
    requires
        0 <= i <= b.len(),
    ensures
        run_end(pre + b, class, pre.len() + i) == pre.len() + run_end(b, class, i),
    decreases b.len() - i,
{
    let s = pre + b;
    if i < b.len() {
        assert(s[pre.len() + i] == b[i]);
        if in_class(class, b[i]) {
            lemma_run_end_shift(pre, b, class, i + 1);
        }
    }
}

/// The dot-separated parts in `b` end, in `pre + b`, as far after `pre` as they end in `b`.
pub proof fn lemma_parts_end_shift(pre: Seq<char>, b: Seq<char>, i: int)
    requires
        0 <= i <= b.len(),
    ensures
        parts_end(pre + b, pre.len() + i) == pre.len() + parts_end(b, i),
    decreases b.len() - i,
{
    let s = pre + b;
    let p = pre.len() as int;
    if i + 1 < b.len() {
        assert(s[p + i] == b[i]);
        assert(s[p + i + 1] == b[i + 1]);
        if b[i] == '.' && is_word(b[i + 1]) {
            lemma_run_end_shift(pre, b, CharClass::Word, i + 1);
            lemma_run_end(b, CharClass::Word, i + 1);
            lemma_parts_end_shift(pre, b, run_end(b, CharClass::Word, i + 1));
        }
    }
}

/// An operand of `b` ends, in `pre + b`, as far after `pre` as it ends in `b`.
pub proof fn lemma_operand_end_shift(pre: Seq<char>, b: Seq<char>, i: int)
    requires
        0 <= i <= b.len(),
    ensures
        operand_end(pre + b, pre.len() + i) == pre.len() + operand_end(b, i),
{
    lemma_run_end_shift(pre, b, CharClass::Name, i);
    lemma_run_end(b, CharClass::Name, i);
    lemma_parts_end_shift(pre, b, run_end(b, CharClass::Name, i));
}

/// What is read at a place in `b` is read, in `pre + b`, at the same place after `pre`.
pub proof fn lemma_operand_at_shift(pre: Seq<char>, b: Seq<char>, i: int)
    requires
        0 <= i < b.len(),
    ensures
        operand_at(pre + b, pre.len() + i) == shifted(operand_at(b, i), pre.len() as int),
{
    let s = pre + b;
    let p = pre.len() as int;
    assert(s[p + i] == b[i]);
    let lead = b[i];
    let from = if lead == '+' || lead == '-' {
        i + 1
    } else {
        i
    };
    lemma_run_end_shift(pre, b, CharClass::Space, from);
    lemma_run_end(b, CharClass::Space, from);
    let start = run_end(b, CharClass::Space, from);
    if start < b.len() {
        assert(s[p + start] == b[start]);
        lemma_operand_end_shift(pre, b, start);
    }
    lemma_operand_end_shift(pre, b, i);
}

/// The next operand of `b` is, in `pre + b`, the next operand after `pre`.
pub proof fn lemma_next_operand_shift(pre: Seq<char>, b: Seq<char>, i: int)
    requires
        0 <= i <= b.len(),
    ensures
        next_operand(pre + b, pre.len() + i) == shifted(next_operand(b, i), pre.len() as int),
    decreases b.len() - i,
{
    if i < b.len() {
        lemma_operand_at_shift(pre, b, i);
        if operand_at(b, i) is None {
            lemma_next_operand_shift(pre, b, i + 1);
        }
    }
}

/// The operands of `b` are, in `pre + b`, the operands after `pre`.
pub proof fn lemma_operands_shift(pre: Seq<char>, b: Seq<char>, i: int)
    requires
        0 <= i <= b.len(),
    ensures
        operands_from(pre + b, pre.len() + i) == operands_from(b, i),
    decreases b.len() - i,
{
    let s = pre + b;
    let p = pre.len() as int;
    lemma_next_operand_shift(pre, b, i);
    lemma_next_operand(b, i);
    match next_operand(b, i) {
        Some(m) => {
            lemma_operands_shift(pre, b, m.end);
            assert(s.subrange(p + m.start, p + m.end) =~= b.subrange(m.start, m.end));
        },
        None => {},
    }
}

/// What is read at a place in the first `n` characters of `s` is read there in `s` too, when
/// a separator stands at `n` or `s` ends there.
pub proof fn lemma_operand_at_prefix(s: Seq<char>, n: int, i: int)
    requires
        0 <= i < n <= s.len(),
        n < s.len() ==> is_separator(s[n]),
    ensures
        operand_at(s, i) == operand_at(s.take(n), i),
{
    let a = s.take(n);
    assert(a[i] == s[i]);
    let lead = s[i];
    let from = if lead == '+' || lead == '-' {
        i + 1
    } else {
        i
    };
    lemma_run_end_prefix(s, n, CharClass::Space, from);
    lemma_run_end(a, CharClass::Space, from);
    let start = run_end(a, CharClass::Space, from);
    if start < n {
        assert(a[start] == s[start]);
        lemma_run_end_prefix(s, n, CharClass::Name, start);
        lemma_run_end(a, CharClass::Name, start);
        lemma_parts_end_prefix(s, n, run_end(a, CharClass::Name, start));
    }
    lemma_run_end_prefix(s, n, CharClass::Name, i);
    lemma_run_end(a, CharClass::Name, i);
    lemma_parts_end_prefix(s, n, run_end(a, CharClass::Name, i));
}

/// The next operand in the first `n` characters of `s` is the next operand in `s`, when a
/// separator stands at `n`; where those characters hold no further operand, the next operand
/// of `s` is the next one after the separator.
pub proof fn lemma_next_operand_prefix(s: Seq<char>, n: int, i: int)
    requires
        0 <= i <= n <= s.len(),
        n < s.len() ==> is_separator(s[n]),
    ensures
        next_operand(s, i) == match next_operand(s.take(n), i) {
            Some(m) => Some(m),
            None => next_operand(s, n + 1),
        },
    decreases n - i,
{
    if i < n {
        lemma_operand_at_prefix(s, n, i);
        if operand_at(s, i) is None {
            lemma_next_operand_prefix(s, n, i + 1);
        }
    } else if n < s.len() {
        lemma_run_end_is(s, CharClass::Space, n, n);
    }
}

/// The operands in the first `n` characters of `s`, and then those after the separator at
/// `n`, are the operands of `s`.
pub proof fn lemma_operands_prefix(s: Seq<char>, n: int, i: int)
    requires
        0 <= i <= n <= s.len(),
        n < s.len() ==> is_separator(s[n]),
    ensures
        operands_from(s, i) == operands_from(s.take(n), i) + operands_from(s, n + 1),
    decreases n - i,
{
    let a = s.take(n);
    lemma_next_operand_prefix(s, n, i);
    lemma_next_operand(a, i);
    lemma_next_operand(s, i);
    match next_operand(a, i) {
        Some(m) => {
            lemma_operands_prefix(s, n, m.end);
            assert(s.subrange(m.start, m.end) =~= a.subrange(m.start, m.end));
            let first = seq![Operand { sign: m.sign, text: s.subrange(m.start, m.end) }];
            assert(first + (operands_from(a, m.end) + operands_from(s, n + 1)) =~= (first
                + operands_from(a, m.end)) + operands_from(s, n + 1));
        },
        None => {
            lemma_next_operand(s, n + 1);
            assert(operands_from(a, i) + operands_from(s, n + 1) =~= operands_from(s, n + 1));
            if n < s.len() {
                match next_operand(s, n + 1) {
                    Some(m) => {},
                    None => {},
                }
            }
        },
    }
}

/// A separator at the end of a text adds no operand to it and changes none.
pub proof fn lemma_operands_push_separator(t: Seq<char>, c: char)
    requires
        is_separator(c),
    ensures
        operands(t.push(c)) == operands(t),
{
    let s = t.push(c);
    assert(s.take(t.len() as int) =~= t);
    lemma_operands_prefix(s, t.len() as int, 0);
    assert(operands_from(s, t.len() as int + 1) =~= Seq::<Operand>::empty());
    assert(operands_from(t, 0) + Seq::<Operand>::empty() =~= operands_from(t, 0));
}

/// A separator at the start of a text adds no operand to it and changes none.
pub proof fn lemma_operands_after_separator(c: char, t: Seq<char>)
    requires
        is_separator(c),
    ensures
        operands(seq![c] + t) == operands(t),
{
    let s = seq![c] + t;
    lemma_operands_shift(seq![c], t, 0);
    assert(s[0] == c);
    lemma_run_end_is(s, CharClass::Space, 0, 0);
    assert(operand_at(s, 0) is None);
    lemma_next_operand(s, 0);
    lemma_next_operand(s, 1);
}

/// An operand text whose first character is not read as a sign is, as an expression, its
/// own single operand.
pub proof fn lemma_lone_operand(t: Seq<char>)
    requires
        is_operand_text(t),
        reads_unsigned(t),
    ensures
        operands(t) == seq![Operand { sign: Sign::Implicit, text: t }],
{
    lemma_leading_operand(t, t.len() as int);
    assert(t.take(t.len() as int) =~= t);
    lemma_next_operand(t, 0);
    assert(t.subrange(0, t.len() as int) =~= t);
    assert(operands_from(t, t.len() as int) =~= Seq::<Operand>::empty());
    assert(seq![Operand { sign: Sign::Implicit, text: t }] + Seq::<Operand>::empty() =~= seq![
        Operand { sign: Sign::Implicit, text: t },
    ]);
}

/// Where the first `n` characters of `s` are an operand text that is not read as signed, and
/// a sign stands at `n` or `s` ends there, those characters are the first operand of `s`. A
/// `-` at `n` ends the operand only after a dot-separated part: after the head it would
/// belong to the head.
pub proof fn lemma_leading_operand(s: Seq<char>, n: int)
    requires
        0 < n <= s.len(),
        is_operand_text(s.take(n)),
        reads_unsigned(s.take(n)),
        n < s.len() ==> s[n] == '+' || (s[n] == '-' && has_parts(s.take(n))),
    ensures
        next_operand(s, 0) == Some(Span { sign: Sign::Implicit, start: 0, end: n }),
{
    let a = s.take(n);
    assert(a[0] == s[0]);
    lemma_name_is_no_space(s[0]);
    lemma_run_end(a, CharClass::Name, 0);
    let head = run_end(a, CharClass::Name, 0);
    lemma_run_end_prefix(s, n, CharClass::Name, 0);
    lemma_parts_end_prefix(s, n, head);
    assert(operand_end(s, 0) == n);
    if s[0] == '-' {
        if head > 1 {
            assert(in_class(CharClass::Name, a[1]));
            assert(false);
        }
        assert(head == 1);
        if n == 1 {
            if n < s.len() {
                lemma_run_end_is(s, CharClass::Space, 1, 1);
            }
        } else {
            assert(a[1] == s[1]);
            assert(parts_end(a, 1) == n);
            assert(s[1] == '.');
            lemma_run_end_is(s, CharClass::Space, 1, 1);
        }
    } else {
        lemma_run_end_is(s, CharClass::Space, 0, 0);
    }
}

} // verus!
