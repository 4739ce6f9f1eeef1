//! The address of a resolution in the width of the machine's pointers.

use vstd::prelude::*;
use crate::error::{result_view, Fault, ResolveError};

verus! {

/// The address `address` in the width of `usize`: `address` modulo 2^32 or 2^64, as the
/// machine has it.
pub open spec fn narrowed(address: u64) -> usize {
    (address as int % (usize::MAX as int + 1)) as usize
}

/// What the outcome of a resolution comes to in the width of `usize`: the address narrowed,
/// or the failure as it is.
pub open spec fn narrowed_outcome(resolved: Result<u64, Fault>) -> Result<usize, Fault> {
    match resolved {
        Ok(address) => Ok(narrowed(address)),
        Err(fault) => Err(fault),
    }
}

/// Hands on the outcome of the resolution of a symbolic address: the address, narrowed to
/// the width of `usize`, or the failure as it is.
pub fn resolve_symbolic_address(resolved: Result<u64, ResolveError>) -> (r: Result<
    usize,
    ResolveError,
>)
    ensures
        result_view(r) == narrowed_outcome(result_view(resolved)),
{
    match resolved {
        Ok(address) => {
            if address <= usize::MAX as u64 {
                proof {
                    vstd::arithmetic::div_mod::lemma_small_mod(
                        address as nat,
                        (usize::MAX as int + 1) as nat,
                    );
                }
                Ok(address as usize)
            } else {
                Ok((address % (usize::MAX as u64 + 1)) as usize)
            }
        },
        Err(e) => Err(e),
    }
}

} // verus!
