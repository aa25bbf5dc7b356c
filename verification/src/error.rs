//! Schema errors.

use vstd::prelude::*;

verus! {

/// Why a schema was refused, and the byte offset where parsing stopped (zero
/// for errors found after parsing).
#[derive(Debug, Clone, PartialEq, Eq)]
pub struct ParseError {
    pub message: String,
    pub position: usize,
}

} // verus!
