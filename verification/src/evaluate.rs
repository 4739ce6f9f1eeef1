//! The value of a flat expression: its operands, added and subtracted from left to right.

use vstd::prelude::*;
use vstd::slice::slice_subrange;
use crate::error::{result_view, Fault, ResolveError};
use crate::hex::{parse_hex, parse_hex_digits};
use crate::operand::{find_operand, lemma_operands_from, operands, operands_from, Operand, Sign};
use crate::table::{find_base, lookup, table_view, ModuleEntry, ModuleRecord};
use crate::text::{chars_of, string_of};

verus! {

/// The text of an operand without the `0x` that may stand before its digits.
pub open spec fn strip_radix(text: Seq<char>) -> Seq<char> {
    if text.len() >= 2 && text[0] == '0' && text[1] == 'x' {
        text.subrange(2, text.len() as int)
    } else {
        text
    }
}

/// The value of an operand: the base of the first module that carries its text as a name;
/// where no module does, the base-16 number that its text denotes, after an optional `0x`.
/// `None` where the text is neither.
pub open spec fn operand_value(text: Seq<char>, modules: Seq<ModuleEntry>) -> Option<u64> {
    match lookup(text, modules) {
        Some(base) => Some(base),
        None => parse_hex(strip_radix(text)),
    }
}

/// The sum of two addresses modulo 2^64.
pub open spec fn wrapping_sum(a: u64, b: u64) -> u64 {
    ((a + b) % 0x1_0000_0000_0000_0000) as u64
}

/// The difference of two addresses modulo 2^64.
pub open spec fn wrapping_difference(a: u64, b: u64) -> u64 {
    ((a - b) % 0x1_0000_0000_0000_0000) as u64
}

/// The address that results when an operand's value meets the address reached so far: the
/// operand is subtracted after a `-` and added otherwise, modulo 2^64.
pub open spec fn combine(address: u64, sign: Sign, value: u64) -> u64 {
    match sign {
        Sign::Minus => wrapping_difference(address, value),
        _ => wrapping_sum(address, value),
    }
}

/// The address that `ops` lead to from `address`. The first operand of an expression
/// replaces the address, whatever its sign; each later one is combined with it. The first
/// operand without a value fails the whole.
pub open spec fn reduce(
    ops: Seq<Operand>,
    modules: Seq<ModuleEntry>,
    address: u64,
    first: bool,
) -> Result<u64, Fault>
    decreases ops.len(),
{
    if ops.len() == 0 {
        Ok(address)
    } else {
        match operand_value(ops[0].text, modules) {
            None => Err(Fault::InvalidOperand { text: ops[0].text }),
            Some(value) => reduce(
                ops.drop_first(),
                modules,
                if first {
                    value
                } else {
                    combine(address, ops[0].sign, value)
                },
                false,
            ),
        }
    }
}

/// The address that a flat expression denotes; 0 for an expression without operands.
pub open spec fn evaluate(s: Seq<char>, modules: Seq<ModuleEntry>) -> Result<u64, Fault> {
    reduce(operands(s), modules, 0, true)
}

/// The value of the operand that `text` spells.
pub fn value_of_operand(text: &[char], modules: &Vec<ModuleRecord>) -> (r: Option<u64>)
    ensures
        r == operand_value(text@, table_view(modules@)),
{
    match find_base(text, modules) {
        Some(base) => Some(base),
        None => {
            if text.len() >= 2 && text[0] == '0' && text[1] == 'x' {
                parse_hex_digits(slice_subrange(text, 2, text.len()))
            } else {
                parse_hex_digits(text)
            }
        },
    }
}

/// Combines an operand's value with the address reached so far.
pub fn apply_operand(address: u64, sign: Sign, value: u64) -> (r: u64)
    ensures
        r == combine(address, sign, value),
{
    match sign {
        Sign::Minus => address.wrapping_sub(value),
        _ => address.wrapping_add(value),
    }
}

/// The address that the flat expression `s` denotes.
pub fn evaluate_chars(s: &[char], modules: &Vec<ModuleRecord>) -> (r: Result<u64, ResolveError>)
    ensures
        result_view(r) == evaluate(s@, table_view(modules@)),
{
    let ghost table = table_view(modules@);
    let mut address: u64 = 0;
    let mut first: bool = true;
    let mut at: usize = 0;
    loop
        invariant
            at <= s@.len(),
            table == table_view(modules@),
            reduce(operands_from(s@, at as int), table, address, first) == evaluate(s@, table),
        decreases s@.len() - at,
    {
        proof {
            lemma_operands_from(s@, at as int);
        }
        match find_operand(s, at) {
            None => {
                return Ok(address);
            },
            Some(found) => {
                let ghost op = Operand {
                    sign: found.sign,
                    text: s@.subrange(found.start as int, found.end as int),
                };
                proof {
                    let rest = operands_from(s@, found.end as int);
                    assert(operands_from(s@, at as int) == seq![op] + rest);
                    assert((seq![op] + rest)[0] == op);
                    assert((seq![op] + rest).drop_first() =~= rest);
                }
                let text = slice_subrange(s, found.start, found.end);
                match value_of_operand(text, modules) {
                    None => {
                        return Err(ResolveError::InvalidOperand { text: string_of(text) });
                    },
                    Some(value) => {
                        address = if first {
                            value
                        } else {
                            apply_operand(address, found.sign, value)
                        };
                        first = false;
                        at = found.end;
                    },
                }
            },
        }
    }
}

/// Resolves a flat expression, one without brackets, to an address. The operands of `addr`
/// are read from left to right. An operand that names a module of `modules`, in any case of
/// its ASCII letters, stands for the base of the first such module; any other operand is read
/// as a base-16 number, after an optional `0x`. The first operand gives the address to start
/// from, and each later one is added to it, or subtracted from it after a `-`, modulo 2^64.
/// An expression without operands resolves to 0. The first operand that is neither a module
/// nor a number fails the resolution, and the error holds its text.
pub fn resolve_single_level_address(addr: &str, modules: &Vec<ModuleRecord>) -> (r: Result<
    u64,
    ResolveError,
>)
    ensures
        result_view(r) == evaluate(addr@, table_view(modules@)),
{
    let chars = chars_of(addr);
    evaluate_chars(chars.as_slice(), modules)
}

} // verus!
