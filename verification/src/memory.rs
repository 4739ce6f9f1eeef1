//! What a read from the target's memory yields: the bytes as a number, or the failure.

use vstd::prelude::*;
use crate::error::{result_view, Fault, ReadWidth, ResolveError};

verus! {

/// The number that eight bytes denote, least significant byte first.
pub open spec fn le_u64(b: Seq<u8>) -> u64 {
    (b[0] + b[1] * 0x100 + b[2] * 0x1_0000 + b[3] * 0x100_0000 + b[4] * 0x1_0000_0000 + b[5]
        * 0x100_0000_0000 + b[6] * 0x1_0000_0000_0000 + b[7] * 0x100_0000_0000_0000) as u64
}

/// The number that four bytes denote, least significant byte first.
pub open spec fn le_u32(b: Seq<u8>) -> u32 {
    (b[0] + b[1] * 0x100 + b[2] * 0x1_0000 + b[3] * 0x100_0000) as u32
}

/// What contracts see of a reader's answer: the bytes read, or the cause of the failure.
pub open spec fn answer_view<const N: usize>(answer: Result<[u8; N], String>) -> Result<
    Seq<u8>,
    Seq<char>,
> {
    match answer {
        Ok(bytes) => Ok(bytes@),
        Err(cause) => Err(cause@),
    }
}

/// What a read of eight bytes at `address` comes to, given the reader's answer: the number
/// that the bytes denote, or the failure that holds the address and the cause.
pub open spec fn read_64(address: u64, answer: Result<Seq<u8>, Seq<char>>) -> Result<u64, Fault> {
    match answer {
        Ok(bytes) => Ok(le_u64(bytes)),
        Err(cause) => Err(Fault::MemoryRead { address, width: ReadWidth::Eight, cause }),
    }
}

/// What a read of four bytes at `address` comes to, given the reader's answer: the number
/// that the bytes denote, or the failure that holds the address and the cause.
pub open spec fn read_32(address: u32, answer: Result<Seq<u8>, Seq<char>>) -> Result<u32, Fault> {
    match answer {
        Ok(bytes) => Ok(le_u32(bytes)),
        Err(cause) => Err(
            Fault::MemoryRead { address: address as u64, width: ReadWidth::Four, cause },
        ),
    }
}

/// Turns the answer to a read of eight bytes at `address` into the value read: the bytes
/// taken as a little-endian number. An answer that is a failure becomes the error that holds
/// `address` and the cause.
pub fn read_memory_64(address: u64, answer: Result<[u8; 8], String>) -> (r: Result<
    u64,
    ResolveError,
>)
    ensures
        result_view(r) == read_64(address, answer_view(answer)),
{
    match answer {
        Ok(b) => {
            let low: u64 = b[0] as u64 + b[1] as u64 * 0x100 + b[2] as u64 * 0x1_0000 + b[3] as u64
                * 0x100_0000;
            let high: u64 = b[4] as u64 + b[5] as u64 * 0x100 + b[6] as u64 * 0x1_0000
                + b[7] as u64 * 0x100_0000;
            Ok(low + high * 0x1_0000_0000)
        },
        Err(cause) => Err(ResolveError::MemoryRead { address, width: ReadWidth::Eight, cause }),
    }
}

/// Turns the answer to a read of four bytes at `address` into the value read: the bytes
/// taken as a little-endian number. An answer that is a failure becomes the error that holds
/// `address` and the cause.
pub fn _read_memory_32(address: u32, answer: Result<[u8; 4], String>) -> (r: Result<
    u32,
    ResolveError,
>)
    ensures
        result_view(r) == read_32(address, answer_view(answer)),
{
    match answer {
        Ok(b) => Ok(
            b[0] as u32 + b[1] as u32 * 0x100 + b[2] as u32 * 0x1_0000 + b[3] as u32 * 0x100_0000,
        ),
        Err(cause) => Err(
            ResolveError::MemoryRead { address: address as u64, width: ReadWidth::Four, cause },
        ),
    }
}

} // verus!
