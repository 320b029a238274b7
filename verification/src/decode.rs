//! The two builders: each scans a symbol sequence from left to right and
//! keeps a buffer of pending subtrees. The stack builder takes operands from
//! the newest end of the buffer, the queue builder from the oldest.

use crate::encode::{queue_encoding, stack_encoding};
use crate::error::ParseError;
use crate::expr::Expr;
use crate::roundtrip::{
    theorem_encodings_permute, theorem_queue_parse_sound, theorem_stack_parse_sound,
};
use crate::symbol::{is_operand, is_operator, operand, operator};
use crate::validity::{
    fault_free, surplus, theorem_queue_parse_outcome, theorem_stack_parse_outcome,
};
use std::collections::VecDeque;
use vstd::prelude::*;

verus! {

/// One step of the stack builder on a buffer whose newest tree is last.
///
/// An operand is pushed as a leaf. An operator pops two trees and pushes a
/// node whose right child is the tree popped first and whose left child is
/// the tree popped second.
pub open spec fn stack_step(buf: Seq<Expr>, c: u8) -> Result<Seq<Expr>, ParseError> {
    if operand(c) {
        Ok(buf.push(Expr::Leaf(c)))
    } else if operator(c) {
        if buf.len() < 2 {
            Err(ParseError::Underflow)
        } else {
            let right = buf[buf.len() - 1];
            let left = buf[buf.len() - 2];
            Ok(buf.take(buf.len() - 2).push(Expr::Node(c, Box::new(left), Box::new(right))))
        }
    } else {
        Err(ParseError::MalformedInput)
    }
}

/// One step of the queue builder on a buffer whose oldest tree is first.
///
/// An operand is appended as a leaf. An operator removes the two oldest
/// trees and appends a node whose right child is the tree removed first and
/// whose left child is the tree removed second.
pub open spec fn queue_step(buf: Seq<Expr>, c: u8) -> Result<Seq<Expr>, ParseError> {
    if operand(c) {
        Ok(buf.push(Expr::Leaf(c)))
    } else if operator(c) {
        if buf.len() < 2 {
            Err(ParseError::Underflow)
        } else {
            let right = buf[0];
            let left = buf[1];
            Ok(buf.skip(2).push(Expr::Node(c, Box::new(left), Box::new(right))))
        }
    } else {
        Err(ParseError::MalformedInput)
    }
}

/// The buffer of the stack builder after it has scanned all of `s`, starting
/// from the buffer `buf`, or the error of the first step that failed.
pub open spec fn stack_scan(buf: Seq<Expr>, s: Seq<u8>) -> Result<Seq<Expr>, ParseError>
    decreases s.len(),
{
    if s.len() == 0 {
        Ok(buf)
    } else {
        match stack_scan(buf, s.drop_last()) {
            Ok(b) => stack_step(b, s.last()),
            Err(e) => Err(e),
        }
    }
}

/// The buffer of the queue builder after it has scanned all of `s`, starting
/// from the buffer `buf`, or the error of the first step that failed.
pub open spec fn queue_scan(buf: Seq<Expr>, s: Seq<u8>) -> Result<Seq<Expr>, ParseError>
    decreases s.len(),
{
    if s.len() == 0 {
        Ok(buf)
    } else {
        match queue_scan(buf, s.drop_last()) {
            Ok(b) => queue_step(b, s.last()),
            Err(e) => Err(e),
        }
    }
}

/// The result of a finished scan: the one tree left in the buffer.
pub open spec fn sole_tree(buf: Seq<Expr>) -> Result<Expr, ParseError> {
    if buf.len() == 1 {
        Ok(buf[0])
    } else {
        Err(ParseError::EmptyOrAmbiguous)
    }
}

/// What the stack builder makes of `s`.
pub open spec fn stack_parse(s: Seq<u8>) -> Result<Expr, ParseError> {
    match stack_scan(Seq::empty(), s) {
        Ok(buf) => sole_tree(buf),
        Err(e) => Err(e),
    }
}

/// What the queue builder makes of `s`.
pub open spec fn queue_parse(s: Seq<u8>) -> Result<Expr, ParseError> {
    match queue_scan(Seq::empty(), s) {
        Ok(buf) => sole_tree(buf),
        Err(e) => Err(e),
    }
}

/// A scan that has failed on a prefix fails in the same way on the whole.
proof fn lemma_stack_scan_error_stays(buf: Seq<Expr>, s: Seq<u8>, n: int, e: ParseError)
    requires
        0 <= n <= s.len(),
        stack_scan(buf, s.take(n)) == Err::<Seq<Expr>, ParseError>(e),
    ensures
        stack_scan(buf, s) == Err::<Seq<Expr>, ParseError>(e),
    decreases s.len() - n,
{
    if n < s.len() {
        assert(s.take(n + 1).drop_last() =~= s.take(n));
        lemma_stack_scan_error_stays(buf, s, n + 1, e);
    } else {
        assert(s.take(n) =~= s);
    }
}

/// A scan that has failed on a prefix fails in the same way on the whole.
proof fn lemma_queue_scan_error_stays(buf: Seq<Expr>, s: Seq<u8>, n: int, e: ParseError)
    requires
        0 <= n <= s.len(),
        queue_scan(buf, s.take(n)) == Err::<Seq<Expr>, ParseError>(e),
    ensures
        queue_scan(buf, s) == Err::<Seq<Expr>, ParseError>(e),
    decreases s.len() - n,
{
    if n < s.len() {
        assert(s.take(n + 1).drop_last() =~= s.take(n));
        lemma_queue_scan_error_stays(buf, s, n + 1, e);
    } else {
        assert(s.take(n) =~= s);
    }
}

/// Builds a tree from its stack encoding.
///
/// Fails with the error of the first symbol that cannot be processed, or
/// with `EmptyOrAmbiguous` when the scan does not end with exactly one tree.
pub fn parse_stack(s: &[u8]) -> (r: Result<Box<Expr>, ParseError>)
    ensures
        match r {
            Ok(t) => stack_parse(s@) == Ok::<Expr, ParseError>(*t),
            Err(e) => stack_parse(s@) == Err::<Expr, ParseError>(e),
        },
        r matches Ok(t) ==> t.well_formed() && stack_encoding(*t) == s@,
        r matches Ok(t) ==> t.size() == s@.len(),
        r is Ok <==> fault_free(s@) && surplus(s@) == 1,
{
    let mut stack: Vec<Expr> = Vec::new();
    let mut i: usize = 0;
    while i < s.len()
        invariant
            i <= s.len(),
            stack_scan(Seq::empty(), s@.take(i as int)) == Ok::<Seq<Expr>, ParseError>(stack@),
        decreases s.len() - i,
    {
        let c = s[i];
        let ghost before = stack@;
        proof {
            assert(s@.take(i + 1).drop_last() =~= s@.take(i as int));
            assert(s@.take(i + 1).last() == c);
        }
        if is_operand(c) {
            stack.push(Expr::Leaf(c));
        } else if is_operator(c) {
            if stack.len() < 2 {
                proof {
                    lemma_stack_scan_error_stays(Seq::empty(), s@, i + 1, ParseError::Underflow);
                    theorem_stack_parse_outcome(s@);
                }
                return Err(ParseError::Underflow);
            }
            let e1 = stack.pop().unwrap();
            let e2 = stack.pop().unwrap();
            stack.push(Expr::Node(c, Box::new(e2), Box::new(e1)));
            assert(stack@ =~= stack_step(before, c).unwrap());
        } else {
            proof {
                lemma_stack_scan_error_stays(Seq::empty(), s@, i + 1, ParseError::MalformedInput);
                theorem_stack_parse_outcome(s@);
            }
            return Err(ParseError::MalformedInput);
        }
        i += 1;
    }
    proof {
        assert(s@.take(i as int) =~= s@);
        theorem_stack_parse_outcome(s@);
    }
    if stack.len() != 1 {
        return Err(ParseError::EmptyOrAmbiguous);
    }
    let root = stack.pop().unwrap();
    proof {
        theorem_stack_parse_sound(s@, root);
        theorem_encodings_permute(root);
    }
    Ok(Box::new(root))
}

/// Builds a tree from its queue encoding.
///
/// Fails with the error of the first symbol that cannot be processed, or
/// with `EmptyOrAmbiguous` when the scan does not end with exactly one tree.
pub fn parse_queue(s: &[u8]) -> (r: Result<Box<Expr>, ParseError>)
    ensures
        match r {
            Ok(t) => queue_parse(s@) == Ok::<Expr, ParseError>(*t),
            Err(e) => queue_parse(s@) == Err::<Expr, ParseError>(e),
        },
        r matches Ok(t) ==> t.well_formed() && queue_encoding(*t) == s@,
        r matches Ok(t) ==> t.size() == s@.len(),
        r is Ok <==> fault_free(s@) && surplus(s@) == 1,
{
    let mut queue: VecDeque<Expr> = VecDeque::new();
    let mut i: usize = 0;
    while i < s.len()
        invariant
            i <= s.len(),
            queue_scan(Seq::empty(), s@.take(i as int)) == Ok::<Seq<Expr>, ParseError>(queue@),
        decreases s.len() - i,
    {
        let c = s[i];
        let ghost before = queue@;
        proof {
            assert(s@.take(i + 1).drop_last() =~= s@.take(i as int));
            assert(s@.take(i + 1).last() == c);
        }
        if is_operand(c) {
            queue.push_back(Expr::Leaf(c));
        } else if is_operator(c) {
            if queue.len() < 2 {
                proof {
                    lemma_queue_scan_error_stays(Seq::empty(), s@, i + 1, ParseError::Underflow);
                    theorem_queue_parse_outcome(s@);
                }
                return Err(ParseError::Underflow);
            }
            let e1 = queue.pop_front().unwrap();
            let e2 = queue.pop_front().unwrap();
            queue.push_back(Expr::Node(c, Box::new(e2), Box::new(e1)));
            assert(queue@ =~= queue_step(before, c).unwrap());
        } else {
            proof {
                lemma_queue_scan_error_stays(Seq::empty(), s@, i + 1, ParseError::MalformedInput);
                theorem_queue_parse_outcome(s@);
            }
            return Err(ParseError::MalformedInput);
        }
        i += 1;
    }
    proof {
        assert(s@.take(i as int) =~= s@);
        theorem_queue_parse_outcome(s@);
    }
    if queue.len() != 1 {
        return Err(ParseError::EmptyOrAmbiguous);
    }
    let root = queue.pop_front().unwrap();
    proof {
        theorem_queue_parse_sound(s@, root);
        theorem_encodings_permute(root);
    }
    Ok(Box::new(root))
}

} // verus!
