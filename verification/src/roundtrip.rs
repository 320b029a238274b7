//! What ties the builders to the serializers: each builder inverts its
//! serializer, each serializer inverts its builder, and the two encodings of
//! one tree hold the same symbols.

use crate::decode::{queue_parse, queue_scan, queue_step, stack_parse, stack_scan, stack_step};
use crate::encode::{
    breadth_first, lemma_post_order_all_push, post_order, post_order_all, queue_encoding,
    stack_encoding,
};
use crate::error::ParseError;
use crate::expr::{
    forest_size, forest_well_formed, lemma_children_size, lemma_forest_size_concat,
    lemma_forest_size_front, Expr,
};
use crate::symbol::operand;
use vstd::prelude::*;

verus! {

/// Scanning `a + b` is scanning `a` and then scanning `b` from the buffer
/// that `a` has left.
proof fn lemma_stack_scan_concat(buf: Seq<Expr>, a: Seq<u8>, b: Seq<u8>)
    ensures
        stack_scan(buf, a + b) == match stack_scan(buf, a) {
            Ok(mid) => stack_scan(mid, b),
            Err(e) => Err(e),
        },
    decreases b.len(),
{
    if b.len() == 0 {
        assert(a + b =~= a);
    } else {
        assert((a + b).drop_last() =~= a + b.drop_last());
        lemma_stack_scan_concat(buf, a, b.drop_last());
    }
}

/// Scanning the post-order symbols of a well-formed tree pushes that tree
/// onto the buffer and leaves the rest of the buffer alone.
proof fn lemma_stack_scan_post_order(buf: Seq<Expr>, t: Expr)
    requires
        t.well_formed(),
    ensures
        stack_scan(buf, post_order(t)) == Ok::<Seq<Expr>, ParseError>(buf.push(t)),
    decreases t,
{
    let s = post_order(t);
    match t {
        Expr::Leaf(c) => {
            assert(s.drop_last() =~= Seq::<u8>::empty());
            assert(stack_scan(buf, s.drop_last()) == Ok::<Seq<Expr>, ParseError>(buf));
        },
        Expr::Node(c, l, r) => {
            let operands = post_order(*l) + post_order(*r);
            let full = buf.push(*l).push(*r);
            lemma_stack_scan_post_order(buf, *l);
            lemma_stack_scan_post_order(buf.push(*l), *r);
            lemma_stack_scan_concat(buf, post_order(*l), post_order(*r));
            assert(stack_scan(buf, operands) == Ok::<Seq<Expr>, ParseError>(full));
            assert(s.drop_last() =~= operands);
            assert(s.last() == c);
            assert(full.take(full.len() - 2) =~= buf);
            assert(stack_step(full, c) == Ok::<Seq<Expr>, ParseError>(buf.push(t)));
        },
    }
}

/// The stack builder inverts the post-order serializer: building from the
/// stack encoding of a well-formed tree gives back that tree.
pub proof fn theorem_stack_roundtrip(t: Expr)
    requires
        t.well_formed(),
    ensures
        stack_parse(stack_encoding(t)) == Ok::<Expr, ParseError>(t),
{
    lemma_stack_scan_post_order(Seq::empty(), t);
    assert(Seq::<Expr>::empty().push(t)[0] == t);
}

/// A buffer that the stack builder reaches from the empty buffer holds
/// well-formed trees only, and their post-order symbols, taken in buffer
/// order, are the symbols scanned.
proof fn lemma_stack_scan_sound(s: Seq<u8>, buf: Seq<Expr>)
    requires
        stack_scan(Seq::empty(), s) == Ok::<Seq<Expr>, ParseError>(buf),
    ensures
        forest_well_formed(buf),
        post_order_all(buf) == s,
    decreases s.len(),
{
    if s.len() == 0 {
        assert(post_order_all(buf) =~= s);
    } else {
        let c = s.last();
        let prev = stack_scan(Seq::empty(), s.drop_last()).unwrap();
        lemma_stack_scan_sound(s.drop_last(), prev);
        assert(s =~= s.drop_last() + seq![c]);
        if operand(c) {
            lemma_post_order_all_push(prev, Expr::Leaf(c));
        } else {
            let n = prev.len() as int;
            let rest = prev.take(n - 2);
            let left = prev[n - 2];
            let right = prev[n - 1];
            let node = Expr::Node(c, Box::new(left), Box::new(right));
            assert(prev =~= rest.push(left).push(right));
            lemma_post_order_all_push(rest, left);
            lemma_post_order_all_push(rest.push(left), right);
            lemma_post_order_all_push(rest, node);
            assert(post_order_all(buf) =~= s);
        }
    }
}

/// The post-order serializer inverts the stack builder: a sequence from which
/// the stack builder makes a tree is the stack encoding of that tree, and the
/// tree is well formed.
pub proof fn theorem_stack_parse_sound(s: Seq<u8>, t: Expr)
    requires
        stack_parse(s) == Ok::<Expr, ParseError>(t),
    ensures
        t.well_formed(),
        stack_encoding(t) == s,
{
    let buf = stack_scan(Seq::empty(), s).unwrap();
    lemma_stack_scan_sound(s, buf);
    assert(buf =~= Seq::<Expr>::empty().push(t));
    lemma_post_order_all_push(Seq::empty(), t);
    assert(post_order_all(buf) =~= post_order(t));
}

/// The trees below a well-formed root are well formed.
proof fn lemma_children_well_formed(t: Expr)
    requires
        t.well_formed(),
    ensures
        forest_well_formed(t.children()),
{
}

/// Let a breadth-first walk start with the trees `f` in its queue. Scanning
/// the symbols it emits, last first, leaves the queue builder with the trees
/// of `f` in its buffer, last first.
proof fn lemma_queue_scan_breadth_first(f: Seq<Expr>)
    requires
        forest_well_formed(f),
    ensures
        queue_scan(Seq::empty(), breadth_first(f).reverse()) == Ok::<Seq<Expr>, ParseError>(
            f.reverse(),
        ),
    decreases forest_size(f),
{
    if f.len() == 0 {
        assert(breadth_first(f).reverse() =~= Seq::<u8>::empty());
        assert(f.reverse() =~= Seq::<Expr>::empty());
    } else {
        let head = f[0];
        let next = f.skip(1) + head.children();
        lemma_forest_size_front(f);
        lemma_forest_size_concat(f.skip(1), head.children());
        lemma_children_size(head);
        lemma_children_well_formed(head);
        assert(forest_well_formed(next));
        lemma_queue_scan_breadth_first(next);

        let s = breadth_first(f).reverse();
        assert(s =~= breadth_first(next).reverse().push(head.symbol()));
        assert(s.drop_last() =~= breadth_first(next).reverse());
        assert(s.last() == head.symbol());
        let buf = next.reverse();
        match head {
            Expr::Leaf(c) => {
                assert(next =~= f.skip(1));
                assert(buf.push(head) =~= f.reverse());
            },
            Expr::Node(c, l, r) => {
                assert(buf[0] == *r);
                assert(buf[1] == *l);
                assert(buf.skip(2).push(head) =~= f.reverse());
                assert(queue_step(buf, c) == Ok::<Seq<Expr>, ParseError>(f.reverse()));
            },
        }
    }
}

/// The queue builder inverts the breadth-first serializer: building from the
/// queue encoding of a well-formed tree gives back that tree.
pub proof fn theorem_queue_roundtrip(t: Expr)
    requires
        t.well_formed(),
    ensures
        queue_parse(queue_encoding(t)) == Ok::<Expr, ParseError>(t),
{
    assert(forest_well_formed(seq![t]));
    lemma_queue_scan_breadth_first(seq![t]);
    assert(seq![t].reverse() =~= seq![t]);
}

/// A buffer that the queue builder reaches from the empty buffer holds
/// well-formed trees only. A breadth-first walk that starts with these
/// trees in its queue, newest first, emits the scanned symbols, last first.
proof fn lemma_queue_scan_sound(s: Seq<u8>, buf: Seq<Expr>)
    requires
        queue_scan(Seq::empty(), s) == Ok::<Seq<Expr>, ParseError>(buf),
    ensures
        forest_well_formed(buf),
        breadth_first(buf.reverse()).reverse() == s,
    decreases s.len(),
{
    if s.len() == 0 {
        assert(buf.reverse() =~= Seq::<Expr>::empty());
        assert(breadth_first(buf.reverse()).reverse() =~= s);
    } else {
        let c = s.last();
        let prev = queue_scan(Seq::empty(), s.drop_last()).unwrap();
        lemma_queue_scan_sound(s.drop_last(), prev);
        assert(s =~= s.drop_last().push(c));
        let walk = buf.reverse();
        assert(walk[0] == buf.last());
        assert(walk[0].symbol() == c);
        assert(walk.skip(1) + walk[0].children() =~= prev.reverse());
        assert(breadth_first(walk) =~= seq![c] + breadth_first(prev.reverse()));
        assert(breadth_first(walk).reverse() =~= breadth_first(prev.reverse()).reverse().push(c));
    }
}

/// The breadth-first serializer inverts the queue builder: a sequence from
/// which the queue builder makes a tree is the queue encoding of that tree,
/// and the tree is well formed.
pub proof fn theorem_queue_parse_sound(s: Seq<u8>, t: Expr)
    requires
        queue_parse(s) == Ok::<Expr, ParseError>(t),
    ensures
        t.well_formed(),
        queue_encoding(t) == s,
{
    let buf = queue_scan(Seq::empty(), s).unwrap();
    lemma_queue_scan_sound(s, buf);
    assert(buf.reverse() =~= seq![t]);
}

/// The post-order symbols of `a + b` are those of `a`, then those of `b`.
proof fn lemma_post_order_all_concat(a: Seq<Expr>, b: Seq<Expr>)
    ensures
        post_order_all(a + b) == post_order_all(a) + post_order_all(b),
    decreases b.len(),
{
    if b.len() == 0 {
        assert(a + b =~= a);
        assert(post_order_all(a) + post_order_all(b) =~= post_order_all(a));
    } else {
        assert((a + b).drop_last() =~= a + b.drop_last());
        lemma_post_order_all_concat(a, b.drop_last());
        assert(post_order_all(a + b) =~= post_order_all(a) + post_order_all(b));
    }
}

/// The post-order symbols of a tree are those of its children, then its own.
proof fn lemma_post_order_children(t: Expr)
    ensures
        post_order(t) == post_order_all(t.children()) + seq![t.symbol()],
{
    match t {
        Expr::Leaf(c) => {
            assert(post_order(t) =~= post_order_all(t.children()) + seq![c]);
        },
        Expr::Node(c, l, r) => {
            assert(t.children() =~= Seq::<Expr>::empty().push(*l).push(*r));
            lemma_post_order_all_push(Seq::empty(), *l);
            lemma_post_order_all_push(Seq::empty().push(*l), *r);
            assert(post_order(t) =~= post_order_all(t.children()) + seq![c]);
        },
    }
}

/// A breadth-first walk emits the symbols that post-order emits, each as
/// many times.
proof fn lemma_breadth_first_permutes(f: Seq<Expr>)
    ensures
        breadth_first(f).to_multiset() == post_order_all(f).to_multiset(),
    decreases forest_size(f),
{
    if f.len() == 0 {
        assert(breadth_first(f) =~= post_order_all(f));
    } else {
        let head = f[0];
        let tail = f.skip(1);
        let kids = head.children();
        let root = seq![head.symbol()];
        lemma_forest_size_front(f);
        lemma_forest_size_concat(tail, kids);
        lemma_children_size(head);
        lemma_breadth_first_permutes(tail + kids);

        lemma_post_order_all_concat(tail, kids);
        assert(f =~= seq![head] + tail);
        lemma_post_order_all_concat(seq![head], tail);
        assert(seq![head] =~= Seq::<Expr>::empty().push(head));
        lemma_post_order_all_push(Seq::empty(), head);
        lemma_post_order_children(head);
        assert(post_order_all(f) =~= (post_order_all(kids) + root) + post_order_all(tail));

        vstd::seq_lib::lemma_multiset_commutative(root, breadth_first(tail + kids));
        vstd::seq_lib::lemma_multiset_commutative(post_order_all(tail), post_order_all(kids));
        vstd::seq_lib::lemma_multiset_commutative(post_order_all(kids), root);
        vstd::seq_lib::lemma_multiset_commutative(
            post_order_all(kids) + root,
            post_order_all(tail),
        );
        assert(breadth_first(f).to_multiset() =~= post_order_all(f).to_multiset());
    }
}

/// Post-order emits one symbol for each node of the tree.
proof fn lemma_post_order_len(t: Expr)
    ensures
        post_order(t).len() == t.size(),
    decreases t,
{
    match t {
        Expr::Leaf(_) => {},
        Expr::Node(_, l, r) => {
            lemma_post_order_len(*l);
            lemma_post_order_len(*r);
        },
    }
}

/// The two encodings of a tree are permutations of each other: each has one
/// symbol for every node of the tree, and both hold every symbol the same
/// number of times.
pub proof fn theorem_encodings_permute(t: Expr)
    ensures
        stack_encoding(t).len() == t.size(),
        queue_encoding(t).len() == t.size(),
        queue_encoding(t).to_multiset() == stack_encoding(t).to_multiset(),
{
    lemma_post_order_len(t);
    let walk = breadth_first(seq![t]);
    lemma_breadth_first_permutes(seq![t]);
    assert(seq![t] =~= Seq::<Expr>::empty().push(t));
    lemma_post_order_all_push(Seq::empty(), t);
    assert(post_order_all(seq![t]) =~= post_order(t));
    walk.lemma_reverse_to_multiset();
    vstd::seq_lib::to_multiset_len(walk.reverse());
    vstd::seq_lib::to_multiset_len(post_order(t));
}

/// From the empty buffer the two builders fail on the same symbol with the
/// same error, or else reach buffers of the same length.
proof fn lemma_scans_agree(s: Seq<u8>)
    ensures
        match stack_scan(Seq::empty(), s) {
            Ok(a) => queue_scan(Seq::empty(), s) matches Ok(b) && a.len() == b.len(),
            Err(e) => queue_scan(Seq::empty(), s) == Err::<Seq<Expr>, ParseError>(e),
        },
    decreases s.len(),
{
    if s.len() != 0 {
        lemma_scans_agree(s.drop_last());
    }
}

/// The two builders accept the same sequences, and reject every other
/// sequence with the same error.
pub proof fn theorem_builders_fail_alike(s: Seq<u8>)
    ensures
        match stack_parse(s) {
            Ok(_) => queue_parse(s) is Ok,
            Err(e) => queue_parse(s) == Err::<Expr, ParseError>(e),
        },
{
    lemma_scans_agree(s);
}

} // verus!
