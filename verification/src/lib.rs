//! Conversion between the stack encoding and the queue encoding of binary
//! expression trees.
//!
//! Both encodings write a tree as a sequence of symbols, operands in
//! lowercase letters and binary operators in uppercase letters. A builder
//! scans such a sequence from left to right and keeps a buffer of pending
//! subtrees; an operator takes its two operands from the buffer. The stack
//! encoding is read with a last-in-first-out buffer, the queue encoding with
//! a first-in-first-out buffer.

pub mod codec;
pub mod decode;
pub mod encode;
pub mod error;
pub mod expr;
pub mod levels;
pub mod roundtrip;
pub mod symbol;
pub mod validity;

pub use codec::stack_to_queue;
pub use decode::{parse_queue, parse_stack};
pub use encode::{bf_traverse, traverse};
pub use error::ParseError;
pub use expr::Expr;
pub use symbol::{is_operand, is_operator};
