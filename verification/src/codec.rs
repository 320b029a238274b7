//! The conversion itself: build the tree that a stack encoding describes,
//! then serialize that tree into its queue encoding.

use crate::decode::{parse_stack, queue_parse, stack_parse};
use crate::encode::{bf_traverse, queue_encoding, stack_encoding};
use crate::error::ParseError;
use crate::expr::Expr;
use crate::roundtrip::{
    theorem_encodings_permute, theorem_queue_roundtrip, theorem_stack_parse_sound,
    theorem_stack_roundtrip,
};
use crate::validity::{fault_free, surplus};
use vstd::prelude::*;

verus! {

/// The queue encoding of the tree that the stack encoding `s` describes, or
/// the error with which the stack builder rejects `s`.
pub open spec fn spec_stack_to_queue(s: Seq<u8>) -> Result<Seq<u8>, ParseError> {
    match stack_parse(s) {
        Ok(t) => Ok(queue_encoding(t)),
        Err(e) => Err(e),
    }
}

/// Converting the stack encoding of a well-formed tree gives the queue
/// encoding of the same tree.
pub proof fn theorem_cross_encoding(t: Expr)
    requires
        t.well_formed(),
    ensures
        spec_stack_to_queue(stack_encoding(t)) == Ok::<Seq<u8>, ParseError>(queue_encoding(t)),
{
    theorem_stack_roundtrip(t);
}

/// The queue builder makes of a converted sequence the tree that the stack
/// builder makes of the sequence it was converted from.
pub proof fn theorem_conversion_keeps_tree(s: Seq<u8>, code: Seq<u8>)
    requires
        spec_stack_to_queue(s) == Ok::<Seq<u8>, ParseError>(code),
    ensures
        queue_parse(code) == stack_parse(s),
{
    let t = stack_parse(s).unwrap();
    theorem_stack_parse_sound(s, t);
    theorem_queue_roundtrip(t);
}

/// A converted sequence is a permutation of the sequence it was converted
/// from: it has the same length and holds every symbol the same number of
/// times.
pub proof fn theorem_conversion_permutes(s: Seq<u8>, code: Seq<u8>)
    requires
        spec_stack_to_queue(s) == Ok::<Seq<u8>, ParseError>(code),
    ensures
        code.len() == s.len(),
        code.to_multiset() == s.to_multiset(),
{
    let t = stack_parse(s).unwrap();
    theorem_stack_parse_sound(s, t);
    theorem_encodings_permute(t);
}

/// Converts a stack encoding into the queue encoding of the same tree.
///
/// The outcome depends on the symbols of `s` alone. The conversion fails
/// exactly when the stack builder rejects `s`, with the builder's error. On
/// success the result is a permutation of `s` from which the queue builder
/// makes the tree that the stack builder makes of `s`.
pub fn stack_to_queue(s: &[u8]) -> (r: Result<Vec<u8>, ParseError>)
    ensures
        match r {
            Ok(code) => spec_stack_to_queue(s@) == Ok::<Seq<u8>, ParseError>(code@),
            Err(e) => spec_stack_to_queue(s@) == Err::<Seq<u8>, ParseError>(e),
        },
        r is Ok <==> fault_free(s@) && surplus(s@) == 1,
        r matches Ok(code) ==> code@.len() == s@.len(),
        r matches Ok(code) ==> code@.to_multiset() == s@.to_multiset(),
        r matches Ok(code) ==> queue_parse(code@) == stack_parse(s@),
{
    match parse_stack(s) {
        Ok(tree) => {
            let code = bf_traverse(tree);
            proof {
                theorem_conversion_keeps_tree(s@, code@);
                theorem_conversion_permutes(s@, code@);
            }
            Ok(code)
        },
        Err(e) => Err(e),
    }
}

} // verus!
