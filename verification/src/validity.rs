//! Which sequences the builders accept, said without running a builder: a
//! count of operands against operators decides it.

use crate::decode::{queue_parse, stack_parse, stack_scan};
use crate::error::ParseError;
use crate::expr::Expr;
use crate::roundtrip::theorem_builders_fail_alike;
use crate::symbol::{operand, operator};
use vstd::prelude::*;

verus! {

/// The number of operands in `s` less the number of operators in `s`. This
/// is how many subtrees are pending once a builder has scanned `s` without
/// meeting a fault.
pub open spec fn surplus(s: Seq<u8>) -> int
    decreases s.len(),
{
    if s.len() == 0 {
        0
    } else if operand(s.last()) {
        surplus(s.drop_last()) + 1
    } else if operator(s.last()) {
        surplus(s.drop_last()) - 1
    } else {
        surplus(s.drop_last())
    }
}

/// What is wrong with the symbol at index `i`, given the symbols before it:
/// it is no letter, or it is an operator that finds fewer than two subtrees
/// pending.
pub open spec fn fault_at(s: Seq<u8>, i: int) -> Option<ParseError> {
    if operand(s[i]) {
        None
    } else if operator(s[i]) {
        if surplus(s.take(i)) < 2 {
            Some(ParseError::Underflow)
        } else {
            None
        }
    } else {
        Some(ParseError::MalformedInput)
    }
}

/// No symbol of `s` is at fault.
pub open spec fn fault_free(s: Seq<u8>) -> bool {
    forall|i: int| 0 <= i < s.len() ==> fault_at(s, i) is None
}

/// The symbol at index `i` is at fault and no symbol before it is.
pub open spec fn first_fault(s: Seq<u8>, i: int) -> bool {
    &&& 0 <= i < s.len()
    &&& fault_at(s, i) is Some
    &&& forall|j: int| 0 <= j < i ==> fault_at(s, j) is None
}

/// A symbol is at fault in a sequence as it is in any longer sequence.
proof fn lemma_fault_at_prefix(s: Seq<u8>, n: int, i: int)
    requires
        0 <= i < n <= s.len(),
    ensures
        fault_at(s.take(n), i) == fault_at(s, i),
{
    assert(s.take(n).take(i) =~= s.take(i));
}

/// The scan from the empty buffer succeeds exactly on the fault-free
/// sequences, and then leaves as many trees as the surplus says. On any other
/// sequence it fails with the fault of the first symbol at fault.
proof fn lemma_scan_outcome(s: Seq<u8>)
    ensures
        match stack_scan(Seq::empty(), s) {
            Ok(buf) => fault_free(s) && buf.len() == surplus(s),
            Err(e) => exists|i: int| first_fault(s, i) && fault_at(s, i) == Some(e),
        },
    decreases s.len(),
{
    if s.len() != 0 {
        let front = s.drop_last();
        let last = s.len() - 1;
        lemma_scan_outcome(front);
        assert(front =~= s.take(last));
        assert forall|j: int| 0 <= j < last implies fault_at(front, j) == fault_at(s, j) by {
            lemma_fault_at_prefix(s, last, j);
        }
        match stack_scan(Seq::empty(), front) {
            Ok(buf) => {
                if fault_at(s, last) is Some {
                    assert(first_fault(s, last));
                }
            },
            Err(e) => {
                let i = choose|i: int| first_fault(front, i) && fault_at(front, i) == Some(e);
                assert(first_fault(s, i));
            },
        }
    }
}

/// The stack builder accepts exactly the fault-free sequences with a
/// surplus of one. It rejects the other fault-free sequences as
/// `EmptyOrAmbiguous`, and every sequence with a fault with the fault of the
/// first symbol at fault.
pub proof fn theorem_stack_parse_outcome(s: Seq<u8>)
    ensures
        stack_parse(s) is Ok <==> fault_free(s) && surplus(s) == 1,
        stack_parse(s) == Err::<Expr, ParseError>(ParseError::EmptyOrAmbiguous) <==> fault_free(s)
            && surplus(s) != 1,
        forall|i: int| first_fault(s, i) ==> stack_parse(s) == Err::<Expr, ParseError>(
            fault_at(s, i).unwrap(),
        ),
{
    lemma_scan_outcome(s);
    assert forall|i: int| first_fault(s, i) implies stack_parse(s) == Err::<Expr, ParseError>(
        fault_at(s, i).unwrap(),
    ) by {
        match stack_scan(Seq::empty(), s) {
            Ok(buf) => {},
            Err(e) => {
                let k = choose|k: int| first_fault(s, k) && fault_at(s, k) == Some(e);
                if k < i {
                    assert(fault_at(s, k) is None);
                } else if i < k {
                    assert(fault_at(s, i) is None);
                }
            },
        }
    }
}

/// The queue builder accepts and rejects as the stack builder does.
pub proof fn theorem_queue_parse_outcome(s: Seq<u8>)
    ensures
        queue_parse(s) is Ok <==> fault_free(s) && surplus(s) == 1,
        queue_parse(s) == Err::<Expr, ParseError>(ParseError::EmptyOrAmbiguous) <==> fault_free(s)
            && surplus(s) != 1,
        forall|i: int| first_fault(s, i) ==> queue_parse(s) == Err::<Expr, ParseError>(
            fault_at(s, i).unwrap(),
        ),
{
    theorem_stack_parse_outcome(s);
    theorem_builders_fail_alike(s);
}

} // verus!
