//! The symbol alphabet: lowercase ASCII letters are operands, uppercase ASCII
//! letters are operators, and every other byte is invalid.

use vstd::prelude::*;

verus! {

/// ASCII `a`, the first operand symbol.
pub const OPERAND_FIRST: u8 = 0x61;

/// ASCII `z`, the last operand symbol.
pub const OPERAND_LAST: u8 = 0x7a;

/// ASCII `A`, the first operator symbol.
pub const OPERATOR_FIRST: u8 = 0x41;

/// ASCII `Z`, the last operator symbol.
pub const OPERATOR_LAST: u8 = 0x5a;

/// Whether `c` is an operand symbol, a letter in `a`..=`z`.
pub open spec fn operand(c: u8) -> bool {
    OPERAND_FIRST <= c <= OPERAND_LAST
}

/// Whether `c` is an operator symbol, a letter in `A`..=`Z`.
pub open spec fn operator(c: u8) -> bool {
    OPERATOR_FIRST <= c <= OPERATOR_LAST
}

/// Tests whether `c` is an operand symbol.
pub fn is_operand(c: u8) -> (b: bool)
    ensures
        b == operand(c),
{
    OPERAND_FIRST <= c && c <= OPERAND_LAST
}

/// Tests whether `c` is an operator symbol.
pub fn is_operator(c: u8) -> (b: bool)
    ensures
        b == operator(c),
{
    OPERATOR_FIRST <= c && c <= OPERATOR_LAST
}

} // verus!
