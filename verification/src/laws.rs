//! What holds of every resolution.

use vstd::prelude::*;
use crate::classes::{in_class, lemma_run_end, lemma_run_end_is, run_end, CharClass};
use crate::error::Fault;
use crate::evaluate::{
    combine, evaluate, operand_value, reduce, strip_radix, wrapping_difference, wrapping_sum,
};
use crate::hex::{hex_digit, hex_digits, hex_text, hex_value, is_hex, lemma_hex_round_trip};
use crate::nested::{
    begin, finish, lemma_depth_step, nesting_depth, resume, scan, step_well_nested, well_nested,
    Step, Suspended,
};
use crate::operand::{
    lemma_next_operand, operand_at, operands, operands_from, sign_of, Operand, Sign, Span,
};
use crate::shape::{
    has_parts, is_operand_text, lemma_leading_operand, lemma_lone_operand, lemma_name_is_no_space,
    lemma_operand_end_shift, lemma_operands_after_separator, lemma_operands_push_separator,
    lemma_parts_end_shift, reads_unsigned,
};
use crate::table::{lemma_lookup_first, lookup, same_name, ModuleEntry};

verus! {

/// A text without brackets.
pub open spec fn bracket_free(t: Seq<char>) -> bool {
    forall|i: int| 0 <= i < t.len() ==> #[trigger] t[i] != '[' && t[i] != ']'
}

/// An expression that is one operand has that operand's value.
pub proof fn lemma_value_of_lone_operand(t: Seq<char>, modules: Seq<ModuleEntry>)
    requires
        is_operand_text(t),
        reads_unsigned(t),
    ensures
        evaluate(t, modules) == match operand_value(t, modules) {
            Some(value) => Ok::<u64, Fault>(value),
            None => Err(Fault::InvalidOperand { text: t }),
        },
{
    lemma_lone_operand(t);
    let ops = operands(t);
    assert(ops.drop_first() =~= Seq::<Operand>::empty());
    match operand_value(t, modules) {
        Some(value) => {
            assert(reduce(ops.drop_first(), modules, value, false) == Ok::<u64, Fault>(value));
        },
        None => {},
    }
}

/// An expression that is the name of a module, in whatever case of its ASCII letters,
/// resolves to the base of the first module of that name. The name has to be one operand:
/// a name with a character that no operand holds, or one that starts with a hyphen before a
/// word character, is read otherwise.
pub proof fn lemma_module_name_resolves(expr: Seq<char>, modules: Seq<ModuleEntry>, k: int)
    requires
        is_operand_text(expr),
        reads_unsigned(expr),
        0 <= k < modules.len(),
        same_name(expr, modules[k].name),
        forall|j: int| 0 <= j < k ==> !same_name(expr, (#[trigger] modules[j]).name),
    ensures
        evaluate(expr, modules) == Ok::<u64, Fault>(modules[k].base),
{
    lemma_lookup_first(expr, modules, k);
    lemma_value_of_lone_operand(expr, modules);
}

/// A run of base-16 digits is an operand text of word characters alone.
pub proof fn lemma_digits_are_operand_text(digits: Seq<char>)
    requires
        is_hex(digits),
    ensures
        is_operand_text(digits),
        reads_unsigned(digits),
        is_operand_text(seq!['0', 'x'] + digits),
        reads_unsigned(seq!['0', 'x'] + digits),
        strip_radix(digits) == digits,
        strip_radix(seq!['0', 'x'] + digits) == digits,
{
    let prefixed = seq!['0', 'x'] + digits;
    assert forall|i: int| 0 <= i < digits.len() implies in_class(
        CharClass::Name,
        #[trigger] digits[i],
    ) && digits[i] != 'x' by {
        assert(hex_digit(digits[i]) is Some);
    }
    assert forall|i: int| 0 <= i < prefixed.len() implies in_class(
        CharClass::Name,
        #[trigger] prefixed[i],
    ) by {
        if i >= 2 {
            assert(prefixed[i] == digits[i - 2]);
        }
    }
    lemma_run_end_is(digits, CharClass::Name, 0, digits.len() as int);
    lemma_run_end_is(prefixed, CharClass::Name, 0, prefixed.len() as int);
    assert(prefixed.subrange(2, prefixed.len() as int) =~= digits);
    assert(hex_digit(digits[0]) is Some);
    if digits.len() >= 2 {
        assert(hex_digit(digits[1]) is Some);
    }
}

/// An expression that is a run of base-16 digits, with or without `0x` before it, and that
/// is no module's name, resolves to the number that the digits denote in base 16, whether or
/// not they look decimal. The number has to fit in 64 bits.
pub proof fn lemma_hex_literal_resolves(
    digits: Seq<char>,
    prefixed: bool,
    modules: Seq<ModuleEntry>,
)
    requires
        is_hex(digits),
        hex_value(digits) <= u64::MAX,
        lookup(
            if prefixed {
                seq!['0', 'x'] + digits
            } else {
                digits
            },
            modules,
        ) is None,
    ensures
        evaluate(
            if prefixed {
                seq!['0', 'x'] + digits
            } else {
                digits
            },
            modules,
        ) == Ok::<u64, Fault>(hex_value(digits) as u64),
{
    lemma_digits_are_operand_text(digits);
    if prefixed {
        lemma_value_of_lone_operand(seq!['0', 'x'] + digits, modules);
    } else {
        lemma_value_of_lone_operand(digits, modules);
    }
}

/// The text written for a value read from memory resolves to that value, unless a module
/// carries the text as its name.
pub proof fn lemma_hex_text_resolves(value: u64, modules: Seq<ModuleEntry>)
    requires
        lookup(hex_text(value), modules) is None,
    ensures
        evaluate(hex_text(value), modules) == Ok::<u64, Fault>(value),
{
    lemma_hex_round_trip(value as nat, true);
    lemma_hex_literal_resolves(hex_digits(value as nat, true), true, modules);
}

/// Two operand texts with a sign between them are read as two operands, the second with
/// that sign. Behind a `-` this needs a dot-separated part at the end of the first: a hyphen
/// after the head of an operand belongs to the head.
pub proof fn lemma_two_operands(a: Seq<char>, sign: char, b: Seq<char>)
    requires
        is_operand_text(a),
        reads_unsigned(a),
        is_operand_text(b),
        sign == '+' || (sign == '-' && has_parts(a)),
    ensures
        operands(a + seq![sign] + b) == seq![
            Operand { sign: Sign::Implicit, text: a },
            Operand { sign: sign_of(sign), text: b },
        ],
{
    let s = a + seq![sign] + b;
    let n = a.len() as int;
    let pre = a + seq![sign];
    assert(s.take(n) =~= a);
    assert(s[n] == sign);
    lemma_leading_operand(s, n);
    lemma_next_operand(s, 0);
    assert(s.subrange(0, n) =~= a);
    assert(s[n + 1] == b[0]);
    lemma_name_is_no_space(b[0]);
    lemma_run_end_is(s, CharClass::Space, n + 1, n + 1);
    lemma_operand_end_shift(pre, b, 0);
    assert(operand_at(s, n) == Some(
        Span { sign: sign_of(sign), start: n + 1, end: s.len() as int },
    ));
    lemma_next_operand(s, n);
    assert(s.subrange(n + 1, s.len() as int) =~= b);
    lemma_next_operand(s, s.len() as int);
    assert(operands_from(s, s.len() as int) =~= Seq::<Operand>::empty());
    let second = seq![Operand { sign: sign_of(sign), text: b }];
    assert(operands_from(s, n) =~= second);
    assert(seq![Operand { sign: Sign::Implicit, text: a }] + second =~= seq![
        Operand { sign: Sign::Implicit, text: a },
        Operand { sign: sign_of(sign), text: b },
    ]);
}

/// Two operands are reduced to the first one's value combined with the second one's.
proof fn lemma_reduce_two(
    first: Operand,
    second: Operand,
    modules: Seq<ModuleEntry>,
    x: u64,
    y: u64,
)
    requires
        operand_value(first.text, modules) == Some(x),
        operand_value(second.text, modules) == Some(y),
    ensures
        reduce(seq![first, second], modules, 0, true) == Ok::<u64, Fault>(
            combine(x, second.sign, y),
        ),
{
    let ops = seq![first, second];
    let rest = ops.drop_first();
    assert(rest =~= seq![second]);
    assert(rest.drop_first() =~= Seq::<Operand>::empty());
    assert(reduce(rest.drop_first(), modules, combine(x, second.sign, y), false) == Ok::<
        u64,
        Fault,
    >(combine(x, second.sign, y)));
    assert(reduce(rest, modules, x, false) == Ok::<u64, Fault>(combine(x, second.sign, y)));
}

/// The expression `A+B` resolves to the sum of the values of `A` and `B` modulo 2^64.
pub proof fn lemma_sum_of_two(
    a: Seq<char>,
    b: Seq<char>,
    modules: Seq<ModuleEntry>,
    x: u64,
    y: u64,
)
    requires
        is_operand_text(a),
        reads_unsigned(a),
        is_operand_text(b),
        operand_value(a, modules) == Some(x),
        operand_value(b, modules) == Some(y),
    ensures
        evaluate(a + seq!['+'] + b, modules) == Ok::<u64, Fault>(wrapping_sum(x, y)),
        wrapping_sum(x, y) == (x + y) % 0x1_0000_0000_0000_0000,
{
    lemma_two_operands(a, '+', b);
    lemma_reduce_two(
        Operand { sign: Sign::Implicit, text: a },
        Operand { sign: Sign::Plus, text: b },
        modules,
        x,
        y,
    );
}

/// The expression `A-B` resolves to the difference of the values of `A` and `B` modulo
/// 2^64, where `A` ends in a dot-separated part. Behind any other `A` the hyphen and `B` are
/// read as more of `A`.
pub proof fn lemma_difference_of_two(
    a: Seq<char>,
    b: Seq<char>,
    modules: Seq<ModuleEntry>,
    x: u64,
    y: u64,
)
    requires
        is_operand_text(a),
        reads_unsigned(a),
        has_parts(a),
        is_operand_text(b),
        operand_value(a, modules) == Some(x),
        operand_value(b, modules) == Some(y),
    ensures
        evaluate(a + seq!['-'] + b, modules) == Ok::<u64, Fault>(wrapping_difference(x, y)),
        wrapping_difference(x, y) == (x - y) % 0x1_0000_0000_0000_0000,
{
    lemma_two_operands(a, '-', b);
    lemma_reduce_two(
        Operand { sign: Sign::Implicit, text: a },
        Operand { sign: Sign::Minus, text: b },
        modules,
        x,
        y,
    );
}

/// A hyphen after an operand text without dot-separated parts, and an operand text after
/// the hyphen, make one operand with them: `A-B` is then no difference but one name.
pub proof fn lemma_hyphen_joins(a: Seq<char>, b: Seq<char>)
    requires
        is_operand_text(a),
        a[0] != '-',
        !has_parts(a),
        is_operand_text(b),
    ensures
        operands(a + seq!['-'] + b) == seq![
            Operand { sign: Sign::Implicit, text: a + seq!['-'] + b },
        ],
{
    let s = a + seq!['-'] + b;
    let pre = a + seq!['-'];
    let n = a.len() as int;
    let head = run_end(b, CharClass::Name, 0);
    lemma_run_end(a, CharClass::Name, 0);
    lemma_run_end(b, CharClass::Name, 0);
    assert forall|k: int| 0 <= k < n + 1 + head implies in_class(
        CharClass::Name,
        #[trigger] s[k],
    ) by {
        if k < n {
            assert(s[k] == a[k]);
        } else if k > n {
            assert(s[k] == b[k - n - 1]);
        }
    }
    if head < b.len() {
        assert(s[n + 1 + head] == b[head]);
    }
    lemma_run_end_is(s, CharClass::Name, 0, n + 1 + head);
    lemma_parts_end_shift(pre, b, head);
    assert(s[0] == a[0]);
    lemma_lone_operand(s);
}

/// A scan over characters that are no brackets gathers them.
pub proof fn lemma_scan_gathers(
    input: Seq<char>,
    next: int,
    until: int,
    current: Seq<char>,
    pending: Seq<Seq<char>>,
    modules: Seq<ModuleEntry>,
)
    requires
        0 <= next <= until <= input.len(),
        bracket_free(input.subrange(next, until)),
    ensures
        scan(input, next, current, pending, modules) == scan(
            input,
            until,
            current + input.subrange(next, until),
            pending,
            modules,
        ),
    decreases until - next,
{
    let run = input.subrange(next, until);
    if next < until {
        let rest = input.subrange(next + 1, until);
        assert(run[0] == input[next]);
        assert forall|j: int| 0 <= j < rest.len() implies #[trigger] rest[j] != '[' && rest[j]
            != ']' by {
            assert(rest[j] == run[j + 1]);
        }
        lemma_scan_gathers(input, next + 1, until, current.push(input[next]), pending, modules);
        assert(current.push(input[next]) + rest =~= current + run);
    } else {
        assert(current + run =~= current);
    }
}

/// The expression made of the text `prefix` and, after it, the text `group` in brackets.
pub open spec fn grouped(prefix: Seq<char>, group: Seq<char>) -> Seq<char> {
    prefix + seq!['['] + group + seq![']']
}

/// The scan of `grouped(prefix, group)` as it waits, at the closing bracket, for the memory
/// at `address`: a prefix that is not empty has been set aside.
pub open spec fn waiting(prefix: Seq<char>, group: Seq<char>, address: u64) -> Suspended {
    Suspended {
        address,
        input: grouped(prefix, group),
        next: grouped(prefix, group).len() as int,
        pending: if prefix.len() > 0 {
            seq![prefix]
        } else {
            Seq::empty()
        },
    }
}

/// An expression `P[X]`, with a text `P` without brackets before a single group, is
/// resolved in two steps. The first asks for the memory at the address that `X` resolves to.
/// The second, given the value read, yields what the flat expression made of `P` and the
/// value's text resolves to: the text before the group is kept.
pub proof fn lemma_prefix_preserved(
    prefix: Seq<char>,
    group: Seq<char>,
    modules: Seq<ModuleEntry>,
    address: u64,
    value: u64,
)
    requires
        bracket_free(prefix),
        bracket_free(group),
        evaluate(group, modules) == Ok::<u64, Fault>(address),
    ensures
        begin(grouped(prefix, group), modules) == Step::Read(waiting(prefix, group, address)),
        resume(waiting(prefix, group, address), value, modules) == finish(
            evaluate(prefix + hex_text(value), modules),
        ),
{
    let input = grouped(prefix, group);
    let p = prefix.len() as int;
    let g = group.len() as int;
    let none = Seq::<Seq<char>>::empty();
    let aside = waiting(prefix, group, address).pending;
    assert(input.subrange(0, p) =~= prefix);
    lemma_scan_gathers(input, 0, p, Seq::empty(), none, modules);
    assert(Seq::<char>::empty() + prefix =~= prefix);
    assert(input[p] == '[');
    assert(scan(input, p, prefix, none, modules) == scan(
        input,
        p + 1,
        seq!['['],
        aside,
        modules,
    )) by {
        if prefix.len() > 0 {
            assert(none.push(prefix) =~= aside);
        }
    }
    assert(input.subrange(p + 1, p + 1 + g) =~= group);
    lemma_scan_gathers(input, p + 1, p + 1 + g, seq!['['], aside, modules);
    assert(input[p + 1 + g] == ']');
    lemma_operands_after_separator('[', group);
    assert(evaluate(seq!['['] + group, modules) == evaluate(group, modules));
    assert(begin(input, modules) == Step::Read(waiting(prefix, group, address)));
    let text = hex_text(value);
    lemma_operands_push_separator(prefix + text, ']');
    lemma_operands_push_separator(text, ']');
    if prefix.len() > 0 {
        assert(aside.last() == prefix);
        assert(aside.drop_last() =~= none);
    } else {
        assert(prefix + text =~= text);
    }
}

/// An expression that is a single group `[X]` resolves to the value that memory holds at
/// the address that `X` resolves to, unless a module carries the text of that value as its
/// name.
pub proof fn lemma_single_group(
    group: Seq<char>,
    modules: Seq<ModuleEntry>,
    address: u64,
    value: u64,
)
    requires
        bracket_free(group),
        evaluate(group, modules) == Ok::<u64, Fault>(address),
        lookup(hex_text(value), modules) is None,
    ensures
        begin(grouped(Seq::empty(), group), modules) == Step::Read(
            waiting(Seq::empty(), group, address),
        ),
        resume(waiting(Seq::empty(), group, address), value, modules) == Step::Done(value),
        grouped(Seq::empty(), group) == seq!['['] + group + seq![']'],
{
    let empty = Seq::<char>::empty();
    lemma_prefix_preserved(empty, group, modules, address, value);
    assert(empty + seq!['['] + group + seq![']'] =~= seq!['['] + group + seq![']']);
    assert(empty + hex_text(value) =~= hex_text(value));
    lemma_hex_text_resolves(value, modules);
}

/// A scan never sets aside more texts than brackets are open: where it starts with no more
/// than that, and with none while nothing is gathered, it stops with no more than that.
pub proof fn lemma_scan_keeps_depth(
    input: Seq<char>,
    next: int,
    current: Seq<char>,
    pending: Seq<Seq<char>>,
    modules: Seq<ModuleEntry>,
)
    requires
        0 <= next <= input.len(),
        pending.len() <= nesting_depth(input.take(next)),
        current.len() == 0 ==> pending.len() == 0,
    ensures
        step_well_nested(scan(input, next, current, pending, modules)),
    decreases input.len() - next,
{
    if next < input.len() {
        lemma_depth_step(input, next);
        if input[next] == '[' {
            let aside = if current.len() > 0 {
                pending.push(current)
            } else {
                pending
            };
            lemma_scan_keeps_depth(input, next + 1, seq!['['], aside, modules);
        } else if input[next] == ']' {
            if current.len() == 0 {
                lemma_scan_keeps_depth(input, next + 1, seq![']'], pending, modules);
            }
        } else {
            lemma_scan_keeps_depth(input, next + 1, current.push(input[next]), pending, modules);
        }
    }
}

/// The first step of a resolution sets aside no more texts than brackets are open.
pub proof fn lemma_begin_keeps_depth(expr: Seq<char>, modules: Seq<ModuleEntry>)
    ensures
        step_well_nested(begin(expr, modules)),
{
    lemma_scan_keeps_depth(expr, 0, Seq::empty(), Seq::empty(), modules);
}

/// When the value of a group is handed back, the text set aside last is taken up again: no
/// more texts stay aside than brackets are open after the group, none where every bracket
/// is closed, and the steps that follow keep it so.
pub proof fn lemma_resume_keeps_depth(s: Suspended, value: u64, modules: Seq<ModuleEntry>)
    requires
        well_nested(s),
    ensures
        s.pending.len() <= nesting_depth(s.input.take(s.next)) + 1,
        step_well_nested(resume(s, value, modules)),
{
    lemma_depth_step(s.input, s.next - 1);
    let text = hex_text(value);
    if s.pending.len() > 0 {
        lemma_scan_keeps_depth(
            s.input,
            s.next,
            (s.pending.last() + text).push(']'),
            s.pending.drop_last(),
            modules,
        );
    } else {
        lemma_scan_keeps_depth(s.input, s.next, text.push(']'), s.pending, modules);
    }
}

} // verus!
