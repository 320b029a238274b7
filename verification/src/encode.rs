//! The two serializers: post-order emission gives the stack encoding of a
//! tree, reversed breadth-first emission gives its queue encoding.

use crate::decode::{queue_parse, stack_parse};
use crate::error::ParseError;
use crate::expr::{
    forest_size, lemma_children_size, lemma_forest_size_concat, lemma_forest_size_front, Expr,
};
use crate::levels::{level_order, theorem_breadth_first_is_level_order};
use crate::roundtrip::{
    theorem_encodings_permute, theorem_queue_roundtrip, theorem_stack_roundtrip,
};
use std::collections::VecDeque;
use vstd::prelude::*;

verus! {

/// The symbols of a tree in post-order: the left subtree, then the right
/// subtree, then the root.
pub open spec fn post_order(t: Expr) -> Seq<u8>
    decreases t,
{
    match t {
        Expr::Leaf(c) => seq![c],
        Expr::Node(c, l, r) => post_order(*l) + post_order(*r) + seq![c],
    }
}

/// The post-order symbols of each tree of `f` in turn, first tree first.
pub open spec fn post_order_all(f: Seq<Expr>) -> Seq<u8>
    decreases f.len(),
{
    if f.len() == 0 {
        Seq::empty()
    } else {
        post_order_all(f.drop_last()) + post_order(f.last())
    }
}

/// The symbols met by a breadth-first walk that starts with the trees of `f`
/// waiting in a first-in-first-out queue, front first. The walk takes the
/// front tree, emits its root and appends its children, left before right.
pub open spec fn breadth_first(f: Seq<Expr>) -> Seq<u8>
    decreases forest_size(f),
    via breadth_first_decreases
{
    if f.len() == 0 {
        Seq::empty()
    } else {
        seq![f[0].symbol()] + breadth_first(f.skip(1) + f[0].children())
    }
}

#[via_fn]
proof fn breadth_first_decreases(f: Seq<Expr>) {
    if f.len() != 0 {
        lemma_forest_size_front(f);
        lemma_forest_size_concat(f.skip(1), f[0].children());
        lemma_children_size(f[0]);
    }
}

/// The stack encoding of a tree: its symbols in post-order.
pub open spec fn stack_encoding(t: Expr) -> Seq<u8> {
    post_order(t)
}

/// The queue encoding of a tree: its symbols in breadth-first order from the
/// root, reversed, so that the deepest symbols come first and the root last.
pub open spec fn queue_encoding(t: Expr) -> Seq<u8> {
    breadth_first(seq![t]).reverse()
}

/// Reverses `v` in place.
fn reverse(v: &mut Vec<u8>)
    ensures
        final(v)@ == old(v)@.reverse(),
{
    let n = v.len();
    let mut i: usize = 0;
    while i < n / 2
        invariant
            n == v.len(),
            n == old(v).len(),
            i <= n / 2,
            forall|k: int| 0 <= k < i ==> v[k] == old(v)[n - 1 - k],
            forall|k: int| n - i <= k < n ==> v[k] == old(v)[n - 1 - k],
            forall|k: int| i <= k < n - i ==> v[k] == old(v)[k],
        decreases n - i,
    {
        let j = n - 1 - i;
        let front = v[i];
        let back = v[j];
        v.set(i, back);
        v.set(j, front);
        i += 1;
    }
    assert(v@ =~= old(v)@.reverse());
}

/// Reversing a sequence with one more symbol at its end puts that symbol
/// in front of the reversed sequence.
proof fn lemma_reverse_push(s: Seq<u8>, c: u8)
    ensures
        s.push(c).reverse() == seq![c] + s.reverse(),
{
    assert(s.push(c).reverse() =~= seq![c] + s.reverse());
}

/// One more tree at the end adds its post-order symbols at the end.
pub proof fn lemma_post_order_all_push(f: Seq<Expr>, t: Expr)
    ensures
        post_order_all(f.push(t)) == post_order_all(f) + post_order(t),
{
    assert(f.push(t).drop_last() =~= f);
}

/// Serializes a tree in post-order into its stack encoding.
///
/// The walk keeps a work stack that starts with the root alone. It pops a
/// tree, emits its symbol and pushes its children, left before right, until
/// the stack is empty; the emitted symbols are then reversed. No call depth
/// grows with the height of the tree.
pub fn traverse(e: Box<Expr>) -> (code: Vec<u8>)
    ensures
        code@ == stack_encoding(*e),
        code@.len() == e.size(),
        e.well_formed() ==> stack_parse(code@) == Ok::<Expr, ParseError>(*e),
{
    let ghost root = *e;
    let mut ser: Vec<u8> = Vec::new();
    let mut stack: Vec<Expr> = Vec::new();
    stack.push(*e);
    proof {
        assert(stack@ =~= Seq::<Expr>::empty().push(root));
        lemma_post_order_all_push(Seq::empty(), root);
        assert(post_order_all(stack@) + ser@.reverse() =~= post_order(root));
    }
    while stack.len() > 0
        invariant
            post_order_all(stack@) + ser@.reverse() == post_order(root),
        decreases forest_size(stack@),
    {
        let ghost before = stack@;
        let ghost rest = before.drop_last();
        let ghost emitted = ser@;
        let top = stack.pop().unwrap();
        proof {
            assert(before =~= rest.push(top));
            lemma_post_order_all_push(rest, top);
            lemma_reverse_push(emitted, top.symbol());
        }
        match top {
            Expr::Leaf(c) => {
                ser.push(c);
            },
            Expr::Node(c, l, r) => {
                ser.push(c);
                stack.push(*l);
                stack.push(*r);
                proof {
                    lemma_post_order_all_push(rest, *l);
                    lemma_post_order_all_push(rest.push(*l), *r);
                    assert(stack@ =~= rest + top.children());
                    lemma_forest_size_concat(rest, top.children());
                    lemma_children_size(top);
                }
            },
        }
        assert(post_order_all(stack@) + ser@.reverse() =~= post_order_all(before)
            + emitted.reverse());
    }
    proof {
        assert(post_order_all(stack@) + ser@.reverse() =~= ser@.reverse());
        assert(ser@.reverse().reverse() =~= ser@);
        theorem_encodings_permute(root);
        if root.well_formed() {
            theorem_stack_roundtrip(root);
        }
    }
    reverse(&mut ser);
    ser
}

/// Serializes a tree breadth-first into its queue encoding.
///
/// The walk keeps a first-in-first-out queue that starts with the root alone.
/// It takes the front tree, emits its symbol and appends its children, until
/// the queue is empty; the emitted symbols are then reversed. The result
/// reads the tree level by level from the deepest level up to the root, each
/// level from right to left.
pub fn bf_traverse(e: Box<Expr>) -> (code: Vec<u8>)
    ensures
        code@ == queue_encoding(*e),
        code@ == level_order(*e).reverse(),
        code@.len() == e.size(),
        e.well_formed() ==> queue_parse(code@) == Ok::<Expr, ParseError>(*e),
{
    let ghost root = *e;
    let mut ser: Vec<u8> = Vec::new();
    let mut queue: VecDeque<Expr> = VecDeque::new();
    queue.push_back(*e);
    assert(queue@ =~= seq![root]);
    while queue.len() > 0
        invariant
            ser@ + breadth_first(queue@) == breadth_first(seq![root]),
        decreases forest_size(queue@),
    {
        let ghost before = queue@;
        let ghost emitted = ser@;
        let head = queue.pop_front().unwrap();
        match head {
            Expr::Leaf(c) => {
                ser.push(c);
            },
            Expr::Node(c, l, r) => {
                ser.push(c);
                queue.push_back(*l);
                queue.push_back(*r);
            },
        }
        proof {
            assert(queue@ =~= before.skip(1) + before[0].children());
            assert(ser@ =~= emitted + seq![before[0].symbol()]);
            assert(ser@ + breadth_first(queue@) =~= emitted + breadth_first(before));
            lemma_forest_size_front(before);
            lemma_forest_size_concat(before.skip(1), before[0].children());
            lemma_children_size(before[0]);
        }
    }
    proof {
        assert(ser@ =~= breadth_first(seq![root]));
        theorem_encodings_permute(root);
        theorem_breadth_first_is_level_order(root);
        if root.well_formed() {
            theorem_queue_roundtrip(root);
        }
    }
    reverse(&mut ser);
    ser
}

} // verus!
