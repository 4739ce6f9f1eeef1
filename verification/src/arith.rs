//! Arithmetic on two plain numbers that a pattern finds in a text.

use vstd::prelude::*;
use vstd::string::StringExecFns;
use crate::decimal::{parse_i64, read_i64};
use crate::text::chars_of;

verus! {

/// The pattern of an operation: a run of decimal digits, an operator and a second run of
/// digits, with white space allowed around the operator. The three parts are its groups.
pub const OPERATION_PATTERN: &'static str = r"(\d+)\s*([+\-*/])\s*(\d+)";

/// Why an expression has no value.
#[derive(Clone, Copy, Debug, PartialEq, Eq, Structural)]
pub enum ArithmeticError {
    /// An operand of the operation is no number that fits in `isize`.
    InvalidNumber,
    /// The operator is none of `+`, `-`, `*` and `/`.
    UnsupportedOperation,
    /// The text holds no operation and is no number itself.
    InvalidExpression,
}

/// What `regex::Regex::captures` finds for a pattern in a text: the groups of the leftmost
/// match, the whole match first, each with the text it matched or `None` where it took no
/// part. `None` where nothing in the text matches, or the pattern cannot be compiled.
pub uninterp spec fn pattern_captures(pattern: Seq<char>, text: Seq<char>) -> Option<
    Seq<Option<Seq<char>>>,
>;

/// What contracts see of the groups of a match.
pub open spec fn groups_view(groups: Seq<Option<String>>) -> Seq<Option<Seq<char>>> {
    Seq::new(
        groups.len(),
        |i: int|
            match groups[i] {
                Some(text) => Some(text@),
                None => None,
            },
    )
}

/// What contracts see of the outcome of a search.
pub open spec fn found_view(found: Option<Vec<Option<String>>>) -> Option<
    Seq<Option<Seq<char>>>,
> {
    match found {
        Some(groups) => Some(groups_view(groups@)),
        None => None,
    }
}

/// The number that `t` denotes, if it fits in `isize`.
pub open spec fn parse_isize(t: Seq<char>) -> Option<isize> {
    match parse_i64(t) {
        Some(v) => if isize::MIN <= v <= isize::MAX {
            Some(v as isize)
        } else {
            None
        },
        None => None,
    }
}

/// The quotient of `a` by `b`, rounded towards zero.
pub open spec fn truncated_quotient(a: int, b: int) -> int {
    if a == 0 {
        0
    } else if a > 0 && b > 0 {
        a / b
    } else if a < 0 && b < 0 {
        (-a) / (-b)
    } else if a < 0 {
        -((-a) / b)
    } else {
        -(a / (-b))
    }
}

/// What the operator `op` makes of `a` and `b`; `None` where it is no operator.
pub open spec fn exact_result(a: int, op: Seq<char>, b: int) -> Option<int> {
    if op == seq!['+'] {
        Some(a + b)
    } else if op == seq!['-'] {
        Some(a - b)
    } else if op == seq!['*'] {
        Some(a * b)
    } else if op == seq!['/'] {
        Some(truncated_quotient(a, b))
    } else {
        None
    }
}

/// Whether the groups are those of an operation whose result can be had: two operands and
/// an operator took part, and where both operands are numbers, the result fits in `isize`
/// and nothing is divided by zero.
pub open spec fn computable(groups: Seq<Option<Seq<char>>>) -> bool {
    &&& groups.len() == 4
    &&& groups[1] is Some
    &&& groups[2] is Some
    &&& groups[3] is Some
    &&& match (parse_isize(groups[1]->0), parse_isize(groups[3]->0)) {
        (Some(a), Some(b)) => {
            &&& !(groups[2]->0 == seq!['/'] && b == 0)
            &&& match exact_result(a as int, groups[2]->0, b as int) {
                Some(v) => isize::MIN <= v <= isize::MAX,
                None => true,
            }
        },
        _ => true,
    }
}

/// The value of the operation that the groups describe. The operands are looked at before
/// the operator, the first before the second.
pub open spec fn groups_value(groups: Seq<Option<Seq<char>>>) -> Result<isize, ArithmeticError> {
    match parse_isize(groups[1]->0) {
        None => Err(ArithmeticError::InvalidNumber),
        Some(a) => match parse_isize(groups[3]->0) {
            None => Err(ArithmeticError::InvalidNumber),
            Some(b) => match exact_result(a as int, groups[2]->0, b as int) {
                Some(v) => Ok(v as isize),
                None => Err(ArithmeticError::UnsupportedOperation),
            },
        },
    }
}

/// Whether the value of an expression can be had, given what the pattern found in it.
pub open spec fn expression_computable(found: Option<Seq<Option<Seq<char>>>>) -> bool {
    found matches Some(groups) ==> computable(groups)
}

/// The value of an expression, given what the pattern found in it: the value of the first
/// operation in it; where it holds none, the number that the whole of it denotes.
pub open spec fn expression_value(found: Option<Seq<Option<Seq<char>>>>, expr: Seq<char>) -> Result<
    isize,
    ArithmeticError,
> {
    match found {
        Some(groups) => groups_value(groups),
        None => match parse_isize(expr) {
            Some(v) => Ok(v),
            None => Err(ArithmeticError::InvalidExpression),
        },
    }
}

/// The text that reports why an expression has no value.
pub open spec fn arithmetic_message(e: ArithmeticError) -> Seq<char> {
    match e {
        ArithmeticError::InvalidNumber => "Invalid number in expression"@,
        ArithmeticError::UnsupportedOperation => "Unsupported operation"@,
        ArithmeticError::InvalidExpression => "Invalid expression"@,
    }
}

impl ArithmeticError {
    /// The text that reports this failure.
    pub fn message(&self) -> (r: String)
        ensures
            r@ == arithmetic_message(*self),
    {
        match self {
            ArithmeticError::InvalidNumber => String::from_str("Invalid number in expression"),
            ArithmeticError::UnsupportedOperation => String::from_str("Unsupported operation"),
            ArithmeticError::InvalidExpression => String::from_str("Invalid expression"),
        }
    }
}

/// Compiles `pattern` with `regex::Regex::new` and searches `text` with
/// `regex::Regex::captures`, which yields the groups of the leftmost match. The contract
/// claims no more than that the outcome is the same for the same pattern and text, which
/// holds of a matcher that reads nothing but the two.
#[verifier::external_body]
pub(crate) fn first_captures(pattern: &str, text: &str) -> (found: Option<Vec<Option<String>>>)
    ensures
        found_view(found) == pattern_captures(pattern@, text@),
{
    let matcher = regex::Regex::new(pattern).ok()?;
    let groups = matcher.captures(text)?;
    Some(groups.iter().map(|group| group.map(|m| m.as_str().to_string())).collect())
}

/// Reads `text` as a signed decimal number that fits in `isize`.
pub fn read_isize(text: &str) -> (r: Option<isize>)
    ensures
        r == parse_isize(text@),
{
    let chars = chars_of(text);
    match read_i64(chars.as_slice()) {
        Some(v) => {
            if isize::MIN as i64 <= v && v <= isize::MAX as i64 {
                Some(v as isize)
            } else {
                None
            }
        },
        None => None,
    }
}

/// Whether `text` is the one character `c`.
fn is_operator(text: &str, c: char) -> (b: bool)
    ensures
        b == (text@ == seq![c]),
{
    let chars = chars_of(text);
    let b = chars.len() == 1 && chars[0] == c;
    proof {
        if b {
            assert(text@ =~= seq![c]);
        } else if text@ == seq![c] {
            assert(text@[0] == c);
        }
    }
    b
}

/// The four operators are four different texts.
proof fn lemma_operators_differ()
    ensures
        seq!['+'] != seq!['-'],
        seq!['+'] != seq!['*'],
        seq!['+'] != seq!['/'],
        seq!['-'] != seq!['*'],
        seq!['-'] != seq!['/'],
        seq!['*'] != seq!['/'],
{
    assert(seq!['+'][0] == '+');
    assert(seq!['-'][0] == '-');
    assert(seq!['*'][0] == '*');
    assert(seq!['/'][0] == '/');
}

/// Whether the groups are those of an operation whose result can be had.
pub fn groups_computable(groups: &Vec<Option<String>>) -> (b: bool)
    ensures
        b == computable(groups_view(groups@)),
{
    let ghost view = groups_view(groups@);
    if groups.len() != 4 {
        return false;
    }
    proof {
        assert(view[1] is Some == groups@[1] is Some);
        assert(view[2] is Some == groups@[2] is Some);
        assert(view[3] is Some == groups@[3] is Some);
    }
    match (&groups[1], &groups[2], &groups[3]) {
        (Some(first), Some(op), Some(second)) => {
            proof {
                assert(view[1] == Some(first@));
                assert(view[2] == Some(op@));
                assert(view[3] == Some(second@));
            }
            match (read_isize(first.as_str()), read_isize(second.as_str())) {
                (Some(a), Some(b)) => {
                    proof {
                        lemma_operators_differ();
                    }
                    if is_operator(op.as_str(), '+') {
                        a.checked_add(b).is_some()
                    } else if is_operator(op.as_str(), '-') {
                        a.checked_sub(b).is_some()
                    } else if is_operator(op.as_str(), '*') {
                        a.checked_mul(b).is_some()
                    } else if is_operator(op.as_str(), '/') {
                        b != 0 && a.checked_div(b).is_some()
                    } else {
                        true
                    }
                },
                _ => true,
            }
        },
        _ => false,
    }
}

/// The value of the operation that the groups of a match describe: the first and the third
/// group are its operands, the second is its operator.
pub fn evaluate_groups(groups: &Vec<Option<String>>) -> (r: Result<isize, ArithmeticError>)
    requires
        computable(groups_view(groups@)),
    ensures
        r == groups_value(groups_view(groups@)),
{
    match (&groups[1], &groups[2], &groups[3]) {
        (Some(first), Some(op), Some(second)) => {
            let a = match read_isize(first.as_str()) {
                Some(a) => a,
                None => {
                    return Err(ArithmeticError::InvalidNumber);
                },
            };
            let b = match read_isize(second.as_str()) {
                Some(b) => b,
                None => {
                    return Err(ArithmeticError::InvalidNumber);
                },
            };
            proof {
                lemma_operators_differ();
            }
            let exact = if is_operator(op.as_str(), '+') {
                a.checked_add(b)
            } else if is_operator(op.as_str(), '-') {
                a.checked_sub(b)
            } else if is_operator(op.as_str(), '*') {
                a.checked_mul(b)
            } else if is_operator(op.as_str(), '/') {
                a.checked_div(b)
            } else {
                return Err(ArithmeticError::UnsupportedOperation);
            };
            match exact {
                Some(v) => Ok(v),
                None => {
                    proof {
                        assert(false);
                    }
                    Err(ArithmeticError::UnsupportedOperation)
                },
            }
        },
        _ => {
            proof {
                assert(false);
            }
            Err(ArithmeticError::UnsupportedOperation)
        },
    }
}

/// The value of an expression: that of the first operation on two plain numbers in it, or,
/// where it holds none, the number that all of it denotes. The operation's result has to fit
/// in `isize`, and its divisor must not be zero.
pub fn _evaluate_expression(expr: &str) -> (r: Result<isize, ArithmeticError>)
    requires
        expression_computable(pattern_captures(OPERATION_PATTERN@, expr@)),
    ensures
        r == expression_value(pattern_captures(OPERATION_PATTERN@, expr@), expr@),
{
    match first_captures(OPERATION_PATTERN, expr) {
        Some(groups) => evaluate_groups(&groups),
        None => match read_isize(expr) {
            Some(v) => Ok(v),
            None => Err(ArithmeticError::InvalidExpression),
        },
    }
}

/// The value of an expression where it can be had; `None` where its operation would leave
/// `isize` or divide by zero.
pub fn try_evaluate_expression(expr: &str) -> (r: Option<Result<isize, ArithmeticError>>)
    ensures
        r == if expression_computable(pattern_captures(OPERATION_PATTERN@, expr@)) {
            Some(expression_value(pattern_captures(OPERATION_PATTERN@, expr@), expr@))
        } else {
            None
        },
{
    let can = match first_captures(OPERATION_PATTERN, expr) {
        Some(groups) => groups_computable(&groups),
        None => true,
    };
    if can {
        Some(_evaluate_expression(expr))
    } else {
        None
    }
}

} // verus!
