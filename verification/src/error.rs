//! The ways in which a symbol sequence can fail to describe a tree.

use vstd::prelude::*;

verus! {

/// Why a builder rejected its input.
#[derive(Debug, Clone, Copy, PartialEq, Eq)]
pub enum ParseError {
    /// A byte that is neither an operand nor an operator symbol was scanned.
    MalformedInput,
    /// An operator was scanned while fewer than two subtrees were pending.
    Underflow,
    /// The scan ended with no pending subtree, or with more than one.
    EmptyOrAmbiguous,
}

} // verus!
