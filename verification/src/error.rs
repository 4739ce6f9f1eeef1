//! The failures of a resolution, and the text that reports each.

use vstd::prelude::*;
use vstd::string::StringExecFns;
use crate::hex::{hex_digits, push_hex};
use crate::text::string_of;

verus! {

/// The width of a read from the target's memory.
#[derive(Clone, Copy, Debug, PartialEq, Eq, Structural)]
pub enum ReadWidth {
    /// Four bytes.
    Four,
    /// Eight bytes, the width of a pointer.
    Eight,
}

/// Why a resolution failed.
#[derive(Clone, Debug, PartialEq, Eq)]
pub enum ResolveError {
    /// An operand that names no module and is no base-16 number. Holds the operand's text.
    InvalidOperand { text: String },
    /// A read from the target's memory that failed. Holds the address asked for, the width of
    /// the read and what the reader said of the failure.
    MemoryRead { address: u64, width: ReadWidth, cause: String },
}

/// What a failure stands for in contracts.
pub enum Fault {
    InvalidOperand { text: Seq<char> },
    MemoryRead { address: u64, width: ReadWidth, cause: Seq<char> },
}

impl View for ResolveError {
    type V = Fault;

    open spec fn view(&self) -> Fault {
        match *self {
            ResolveError::InvalidOperand { text } => Fault::InvalidOperand { text: text@ },
            ResolveError::MemoryRead { address, width, cause } => Fault::MemoryRead {
                address,
                width,
                cause: cause@,
            },
        }
    }
}

/// What a result that may hold a failure stands for in contracts.
pub open spec fn result_view<T>(r: Result<T, ResolveError>) -> Result<T, Fault> {
    match r {
        Ok(v) => Ok(v),
        Err(e) => Err(e@),
    }
}

/// The text that reports a failure.
pub open spec fn fault_message(f: Fault) -> Seq<char> {
    match f {
        Fault::InvalidOperand { text } => "Invalid number: "@ + text,
        Fault::MemoryRead { address, width, cause } => "Failed to read "@ + (match width {
            ReadWidth::Four => "32"@,
            ReadWidth::Eight => "64"@,
        }) + "-bit memory at address 0x"@ + hex_digits(address as nat, false) + ": "@ + cause,
    }
}

impl ResolveError {
    /// The text that reports this failure.
    pub fn message(&self) -> (r: String)
        ensures
            r@ == fault_message(self@),
    {
        match self {
            ResolveError::InvalidOperand { text } => {
                let mut r = String::from_str("Invalid number: ");
                r.append(text.as_str());
                r
            },
            ResolveError::MemoryRead { address, width, cause } => {
                let mut r = String::from_str("Failed to read ");
                match width {
                    ReadWidth::Four => r.append("32"),
                    ReadWidth::Eight => r.append("64"),
                }
                r.append("-bit memory at address 0x");
                let mut digits: Vec<char> = Vec::new();
                push_hex(&mut digits, *address, false);
                let written = string_of(digits.as_slice());
                proof {
                    assert(Seq::<char>::empty() + hex_digits(*address as nat, false)
                        =~= hex_digits(*address as nat, false));
                }
                r.append(written.as_str());
                r.append(": ");
                r.append(cause.as_str());
                r
            },
        }
    }
}

} // verus!
