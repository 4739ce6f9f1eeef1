//! Expressions with bracket groups: a scan that stops at each group's end with the address
//! whose content the group stands for, and goes on once that content is known.

use vstd::prelude::*;
use crate::error::{Fault, ResolveError};
use crate::evaluate::{evaluate, evaluate_chars};
use crate::hex::{hex_text, push_hex};
use crate::table::{table_view, ModuleEntry, ModuleRecord};
use crate::text::chars_of;

verus! {

/// How many brackets are open at the end of `s`. A closing bracket that closes none counts
/// for nothing.
pub open spec fn nesting_depth(s: Seq<char>) -> nat
    decreases s.len(),
{
    if s.len() == 0 {
        0
    } else {
        let before = nesting_depth(s.drop_last());
        if s.last() == '[' {
            before + 1
        } else if s.last() == ']' && before > 0 {
            (before - 1) as nat
        } else {
            before
        }
    }
}

/// A scan that waits for the content of memory at `address`: the expression, where the scan
/// goes on in it, and the texts that were set aside at the brackets that are still open, the
/// innermost last.
pub struct Suspended {
    pub address: u64,
    pub input: Seq<char>,
    pub next: int,
    pub pending: Seq<Seq<char>>,
}

/// Where a scan has come to.
pub enum Step {
    /// The expression is resolved to this address.
    Done(u64),
    /// The resolution failed.
    Failed(Fault),
    /// The scan cannot go on before memory is read.
    Read(Suspended),
}

/// The step that ends a scan with the value of its last text.
pub open spec fn finish(r: Result<u64, Fault>) -> Step {
    match r {
        Ok(address) => Step::Done(address),
        Err(fault) => Step::Failed(fault),
    }
}

/// Scans `input` from `next` on, with `current` as the text gathered so far and `pending` as
/// the texts set aside. An opening bracket sets a non-empty `current` aside and starts a new
/// one with the bracket as its mark. A closing bracket that meets a non-empty `current` ends
/// a group: `current` is evaluated as a flat expression and the scan stops for the content of
/// memory at that address; one that meets an empty `current` only leaves its mark. Any other
/// character joins `current`. At the end of `input` the value of `current` is the result.
pub open spec fn scan(
    input: Seq<char>,
    next: int,
    current: Seq<char>,
    pending: Seq<Seq<char>>,
    modules: Seq<ModuleEntry>,
) -> Step
    decreases input.len() - next,
{
    if next < 0 || next >= input.len() {
        finish(evaluate(current, modules))
    } else if input[next] == '[' {
        scan(
            input,
            next + 1,
            seq!['['],
            if current.len() > 0 {
                pending.push(current)
            } else {
                pending
            },
            modules,
        )
    } else if input[next] == ']' {
        if current.len() > 0 {
            match evaluate(current, modules) {
                Ok(address) => Step::Read(Suspended { address, input, next: next + 1, pending }),
                Err(fault) => Step::Failed(fault),
            }
        } else {
            scan(input, next + 1, seq![']'], pending, modules)
        }
    } else {
        scan(input, next + 1, current.push(input[next]), pending, modules)
    }
}

/// The first step of the resolution of `expr`.
pub open spec fn begin(expr: Seq<char>, modules: Seq<ModuleEntry>) -> Step {
    scan(expr, 0, Seq::empty(), Seq::empty(), modules)
}

/// The step that follows when `value` was read for a suspended scan: the text of `value`
/// takes the place of the group, after the text that was set aside last if there is one, the
/// closing bracket leaves its mark, and the scan goes on.
pub open spec fn resume(s: Suspended, value: u64, modules: Seq<ModuleEntry>) -> Step {
    if s.pending.len() > 0 {
        scan(
            s.input,
            s.next,
            (s.pending.last() + hex_text(value)).push(']'),
            s.pending.drop_last(),
            modules,
        )
    } else {
        scan(s.input, s.next, hex_text(value).push(']'), s.pending, modules)
    }
}

/// The texts that a stack of character vectors holds.
pub open spec fn stack_view(pending: Seq<Vec<char>>) -> Seq<Seq<char>> {
    Seq::new(pending.len(), |i: int| pending[i]@)
}

/// A resolution that waits for one read of eight bytes from the target's memory.
#[derive(Debug)]
pub struct PendingRead {
    address: u64,
    input: Vec<char>,
    next: usize,
    pending: Vec<Vec<char>>,
}

/// How far a resolution has come.
#[derive(Debug)]
pub enum Progress {
    /// The expression is resolved to this address.
    Done(u64),
    /// The resolution goes on when the eight bytes at the pending read's address are known.
    NeedsRead(PendingRead),
}

impl View for PendingRead {
    type V = Suspended;

    closed spec fn view(&self) -> Suspended {
        Suspended {
            address: self.address,
            input: self.input@,
            next: self.next as int,
            pending: stack_view(self.pending@),
        }
    }
}

/// What the outcome of a step of a resolution stands for in contracts.
pub open spec fn step_view(r: Result<Progress, ResolveError>) -> Step {
    match r {
        Ok(Progress::Done(address)) => Step::Done(address),
        Ok(Progress::NeedsRead(pending)) => Step::Read(pending@),
        Err(e) => Step::Failed(e@),
    }
}

/// A suspended scan stands after a closing bracket of its expression, and has set aside no
/// more texts than brackets were open before that bracket.
pub open spec fn well_nested(s: Suspended) -> bool {
    &&& 1 <= s.next <= s.input.len()
    &&& s.input[s.next - 1] == ']'
    &&& s.pending.len() <= nesting_depth(s.input.take(s.next - 1))
}

/// What a step of a resolution leaves behind is well nested.
pub open spec fn step_well_nested(step: Step) -> bool {
    step matches Step::Read(s) ==> well_nested(s)
}

/// One more character of the input changes the number of open brackets by at most one: an
/// opening bracket adds one, a closing bracket takes one away where any is open.
pub proof fn lemma_depth_step(input: Seq<char>, i: int)
    requires
        0 <= i < input.len(),
    ensures
        nesting_depth(input.take(i + 1)) == if input[i] == '[' {
            nesting_depth(input.take(i)) as int + 1
        } else if input[i] == ']' && nesting_depth(input.take(i)) > 0 {
            nesting_depth(input.take(i)) - 1
        } else {
            nesting_depth(input.take(i)) as int
        },
{
    assert(input.take(i + 1).drop_last() =~= input.take(i));
}

impl PendingRead {
    #[verifier::type_invariant]
    spec fn valid(self) -> bool {
        well_nested(self@)
    }

    /// The address whose eight bytes the resolution waits for.
    pub fn address(&self) -> (a: u64)
        ensures
            a == self@.address,
    {
        self.address
    }

    /// The number of texts set aside at brackets that are still open. It never exceeds the
    /// number of brackets open before the one at which the resolution waits.
    pub fn depth(&self) -> (d: usize)
        ensures
            d == self@.pending.len(),
            well_nested(self@),
    {
        proof {
            use_type_invariant(self);
        }
        self.pending.len()
    }

    /// Goes on with the resolution, given the little-endian value `value` of the eight bytes
    /// at the address asked for.
    pub fn resume(self, value: u64, modules: &Vec<ModuleRecord>) -> (r: Result<
        Progress,
        ResolveError,
    >)
        ensures
            step_view(r) == resume(self@, value, table_view(modules@)),
            step_well_nested(step_view(r)),
    {
        proof {
            use_type_invariant(&self);
            lemma_depth_step(self.input@, self.next - 1);
        }
        let PendingRead { address: _, input, next, pending } = self;
        let mut pending = pending;
        let ghost before = stack_view(pending@);
        let mut current: Vec<char> = match pending.pop() {
            Some(prefix) => prefix,
            None => Vec::new(),
        };
        let ghost prefix = current@;
        current.push('0');
        current.push('x');
        push_hex(&mut current, value, true);
        current.push(']');
        proof {
            if before.len() > 0 {
                assert(prefix == before.last());
                assert(stack_view(pending@) =~= before.drop_last());
                assert(current@ =~= (before.last() + hex_text(value)).push(']'));
            } else {
                assert(stack_view(pending@) =~= before);
                assert(current@ =~= hex_text(value).push(']'));
            }
        }
        run_scan(input, next, current, pending, modules)
    }
}

/// Scans `input` from `next` on until memory has to be read or the expression is resolved.
fn run_scan(
    input: Vec<char>,
    next: usize,
    current: Vec<char>,
    pending: Vec<Vec<char>>,
    modules: &Vec<ModuleRecord>,
) -> (r: Result<Progress, ResolveError>)
    requires
        next <= input@.len(),
        pending@.len() <= nesting_depth(input@.take(next as int)),
        current@.len() == 0 ==> pending@.len() == 0,
    ensures
        step_view(r) == scan(
            input@,
            next as int,
            current@,
            stack_view(pending@),
            table_view(modules@),
        ),
        step_well_nested(step_view(r)),
{
    let ghost table = table_view(modules@);
    let ghost goal = scan(input@, next as int, current@, stack_view(pending@), table);
    let mut text = current;
    let mut stack = pending;
    let mut i: usize = next;
    while i < input.len()
        invariant
            i <= input@.len(),
            table == table_view(modules@),
            stack@.len() <= nesting_depth(input@.take(i as int)),
            text@.len() == 0 ==> stack@.len() == 0,
            scan(input@, i as int, text@, stack_view(stack@), table) == goal,
            goal == scan(input@, next as int, current@, stack_view(pending@), table),
        decreases input@.len() - i,
    {
        let c = input[i];
        proof {
            lemma_depth_step(input@, i as int);
        }
        if c == '[' {
            if text.len() > 0 {
                let ghost before = stack_view(stack@);
                let ghost set_aside = text@;
                stack.push(text);
                text = Vec::new();
                proof {
                    assert(stack_view(stack@) =~= before.push(set_aside));
                }
            }
            text.push('[');
            proof {
                assert(text@ =~= seq!['[']);
            }
        } else if c == ']' {
            if text.len() > 0 {
                match evaluate_chars(text.as_slice(), modules) {
                    Ok(address) => {
                        return Ok(
                            Progress::NeedsRead(
                                PendingRead { address, input, next: i + 1, pending: stack },
                            ),
                        );
                    },
                    Err(e) => {
                        return Err(e);
                    },
                }
            }
            text.push(']');
            proof {
                assert(text@ =~= seq![']']);
            }
        } else {
            text.push(c);
        }
        i = i + 1;
    }
    match evaluate_chars(text.as_slice(), modules) {
        Ok(address) => Ok(Progress::Done(address)),
        Err(e) => Err(e),
    }
}

/// Starts the resolution of an expression that may hold bracket groups. Each group stands for
/// the eight bytes of memory at the address that its content resolves to. The result is the
/// address of `nested_addr`, or the first read that the resolution needs; it goes on with
/// `PendingRead::resume` once the bytes are known. Groups are resolved from the inside out and
/// from left to right. A failure of any flat expression on the way fails the whole.
pub fn resolve_nested_address(nested_addr: &str, modules: &Vec<ModuleRecord>) -> (r: Result<
    Progress,
    ResolveError,
>)
    ensures
        step_view(r) == begin(nested_addr@, table_view(modules@)),
        step_well_nested(step_view(r)),
{
    let input = chars_of(nested_addr);
    let pending: Vec<Vec<char>> = Vec::new();
    proof {
        assert(stack_view(pending@) =~= Seq::<Seq<char>>::empty());
    }
    run_scan(input, 0, Vec::new(), pending, modules)
}

} // verus!
