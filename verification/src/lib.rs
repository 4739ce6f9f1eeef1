//! Helpers for tools that inspect a running process.
//!
//! The main one resolves symbolic pointer-chain expressions to addresses. An expression names
//! module bases, base-16 numbers and, in brackets, the content of the target's memory at the
//! address that the bracketed part resolves to. The library scans and evaluates; reading the
//! target's memory is left to the caller, who hands each value read back to the resolution.
//!
//! Beside it stand the reading of the directory listings that such tools receive from the
//! target, and the evaluation of an operation on two plain numbers.

pub mod arith;
pub mod classes;
pub mod decimal;
pub mod entry;
pub mod error;
pub mod evaluate;
pub mod hex;
pub mod laws;
pub mod listing;
pub mod memory;
pub mod nested;
pub mod operand;
pub mod shape;
pub mod table;
pub mod text;

pub use crate::arith::{_evaluate_expression, try_evaluate_expression, ArithmeticError};
pub use crate::entry::resolve_symbolic_address;
pub use crate::error::{ReadWidth, ResolveError};
pub use crate::evaluate::resolve_single_level_address;
pub use crate::listing::{parse_directory_structure, FileItem};
pub use crate::memory::{_read_memory_32, read_memory_64};
pub use crate::nested::{resolve_nested_address, PendingRead, Progress};
pub use crate::table::ModuleRecord;
