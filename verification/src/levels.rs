//! Breadth-first order, said without a queue: the symbols of a tree level by
//! level from the root, each level from left to right. The walk with a queue
//! that the serializer performs emits exactly this order.

use crate::encode::{breadth_first, queue_encoding};
use crate::expr::Expr;
use vstd::prelude::*;

verus! {

/// The number of levels of a tree; a leaf has one.
pub open spec fn height(t: Expr) -> nat
    decreases t,
{
    match t {
        Expr::Leaf(_) => 1,
        Expr::Node(_, l, r) => 1 + if height(*l) >= height(*r) {
            height(*l)
        } else {
            height(*r)
        },
    }
}

/// The symbols at depth `d` below the root of `t`, from left to right. The
/// root itself is at depth 0.
pub open spec fn level(t: Expr, d: nat) -> Seq<u8>
    decreases t,
{
    if d == 0 {
        seq![t.symbol()]
    } else {
        match t {
            Expr::Leaf(_) => Seq::empty(),
            Expr::Node(_, l, r) => level(*l, (d - 1) as nat) + level(*r, (d - 1) as nat),
        }
    }
}

/// The levels of `t` from depth `lo` up to, and without, depth `hi`, one
/// after the other.
pub open spec fn levels_between(t: Expr, lo: nat, hi: nat) -> Seq<u8>
    decreases hi - lo,
{
    if lo >= hi {
        Seq::empty()
    } else {
        level(t, lo) + levels_between(t, lo + 1, hi)
    }
}

/// All symbols of `t`, level by level from the root.
pub open spec fn level_order(t: Expr) -> Seq<u8> {
    levels_between(t, 0, height(t))
}

/// The symbols at depth `d` of each tree of `f` in turn.
pub open spec fn forest_level(f: Seq<Expr>, d: nat) -> Seq<u8>
    decreases f.len(),
{
    if f.len() == 0 {
        Seq::empty()
    } else {
        forest_level(f.drop_last(), d) + level(f.last(), d)
    }
}

/// The levels of the trees of `f` from depth `lo` up to, and without, depth
/// `hi`, each level across the whole of `f`.
pub open spec fn forest_levels_between(f: Seq<Expr>, lo: nat, hi: nat) -> Seq<u8>
    decreases hi - lo,
{
    if lo >= hi {
        Seq::empty()
    } else {
        forest_level(f, lo) + forest_levels_between(f, lo + 1, hi)
    }
}

/// The children of every tree of `f` in turn.
pub open spec fn all_children(f: Seq<Expr>) -> Seq<Expr>
    decreases f.len(),
{
    if f.len() == 0 {
        Seq::empty()
    } else {
        all_children(f.drop_last()) + f.last().children()
    }
}

/// No tree of `f` has more than `n` levels.
pub open spec fn forest_within(f: Seq<Expr>, n: nat) -> bool {
    forall|i: int| 0 <= i < f.len() ==> height(#[trigger] f[i]) <= n
}

/// A tree has at least one level.
proof fn lemma_height_positive(t: Expr)
    ensures
        height(t) >= 1,
{
}

/// A level of `a + b` is that level of `a`, then that level of `b`.
proof fn lemma_forest_level_concat(a: Seq<Expr>, b: Seq<Expr>, d: nat)
    ensures
        forest_level(a + b, d) == forest_level(a, d) + forest_level(b, d),
    decreases b.len(),
{
    if b.len() == 0 {
        assert(a + b =~= a);
        assert(forest_level(a, d) + forest_level(b, d) =~= forest_level(a, d));
    } else {
        assert((a + b).drop_last() =~= a + b.drop_last());
        lemma_forest_level_concat(a, b.drop_last(), d);
        assert(forest_level(a + b, d) =~= forest_level(a, d) + forest_level(b, d));
    }
}

/// A level of a single tree, taken as a sequence, is that level of the tree.
proof fn lemma_forest_level_single(t: Expr, d: nat)
    ensures
        forest_level(seq![t], d) == level(t, d),
{
    let f = seq![t];
    assert(f.drop_last() =~= Seq::<Expr>::empty());
    assert(forest_level(f.drop_last(), d) =~= Seq::<u8>::empty());
    assert(forest_level(f, d) =~= level(t, d));
}

/// The children of `a + b` are those of `a`, then those of `b`.
proof fn lemma_all_children_concat(a: Seq<Expr>, b: Seq<Expr>)
    ensures
        all_children(a + b) == all_children(a) + all_children(b),
    decreases b.len(),
{
    if b.len() == 0 {
        assert(a + b =~= a);
        assert(all_children(a) + all_children(b) =~= all_children(a));
    } else {
        assert((a + b).drop_last() =~= a + b.drop_last());
        lemma_all_children_concat(a, b.drop_last());
        assert(all_children(a + b) =~= all_children(a) + all_children(b));
    }
}

/// The children of a single tree, taken as a sequence, are its children.
proof fn lemma_all_children_single(t: Expr)
    ensures
        all_children(seq![t]) == t.children(),
{
    let f = seq![t];
    assert(f.drop_last() =~= Seq::<Expr>::empty());
    assert(all_children(f.drop_last()) =~= Seq::<Expr>::empty());
    assert(all_children(f) =~= t.children());
}

/// A level of the children of a tree is the next level of the tree.
proof fn lemma_children_level(t: Expr, d: nat)
    ensures
        forest_level(t.children(), d) == level(t, d + 1),
{
    match t {
        Expr::Leaf(_) => {},
        Expr::Node(_, l, r) => {
            assert(t.children() =~= seq![*l] + seq![*r]);
            lemma_forest_level_concat(seq![*l], seq![*r], d);
            lemma_forest_level_single(*l, d);
            lemma_forest_level_single(*r, d);
        },
    }
}

/// A level of the children of a forest is the next level of the forest.
proof fn lemma_all_children_level(f: Seq<Expr>, d: nat)
    ensures
        forest_level(all_children(f), d) == forest_level(f, d + 1),
    decreases f.len(),
{
    if f.len() != 0 {
        lemma_all_children_level(f.drop_last(), d);
        lemma_forest_level_concat(all_children(f.drop_last()), f.last().children(), d);
        lemma_children_level(f.last(), d);
    }
}

/// The levels of the children of a forest are the levels of the forest, one
/// deeper.
proof fn lemma_all_children_levels(f: Seq<Expr>, lo: nat, hi: nat)
    ensures
        forest_levels_between(all_children(f), lo, hi) == forest_levels_between(
            f,
            lo + 1,
            hi + 1,
        ),
    decreases hi - lo,
{
    if lo < hi {
        lemma_all_children_level(f, lo);
        lemma_all_children_levels(f, lo + 1, hi);
    }
}

/// The children of a forest have one level fewer than the forest.
proof fn lemma_all_children_within(f: Seq<Expr>, n: nat)
    requires
        forest_within(f, n),
        n >= 1,
    ensures
        forest_within(all_children(f), (n - 1) as nat),
    decreases f.len(),
{
    if f.len() != 0 {
        let front = f.drop_last();
        let t = f.last();
        assert forall|i: int| 0 <= i < front.len() implies height(#[trigger] front[i]) <= n by {
            assert(front[i] == f[i]);
        }
        lemma_all_children_within(front, n);
        let kids = all_children(front);
        assert forall|i: int| 0 <= i < all_children(f).len() implies height(
            #[trigger] all_children(f)[i],
        ) <= n - 1 by {
            if i < kids.len() {
                assert(all_children(f)[i] == kids[i]);
            } else {
                assert(all_children(f)[i] == t.children()[i - kids.len()]);
            }
        }
    }
}

/// When the queue of a breadth-first walk holds the trees `a` followed by
/// the trees `b`, the walk first emits the roots of `a` and then goes on as
/// from a queue that holds `b` followed by the children of `a`.
proof fn lemma_breadth_first_generation(a: Seq<Expr>, b: Seq<Expr>)
    ensures
        breadth_first(a + b) == forest_level(a, 0) + breadth_first(b + all_children(a)),
    decreases a.len(),
{
    if a.len() == 0 {
        assert(a + b =~= b + all_children(a));
        assert(breadth_first(a + b) =~= forest_level(a, 0) + breadth_first(b + all_children(a)));
    } else {
        let head = a[0];
        let tail = a.skip(1);
        let queue = a + b;
        assert(queue[0] == head);
        assert(queue.skip(1) + head.children() =~= tail + (b + head.children()));
        lemma_breadth_first_generation(tail, b + head.children());

        assert(a =~= seq![head] + tail);
        lemma_forest_level_concat(seq![head], tail, 0);
        lemma_forest_level_single(head, 0);
        lemma_all_children_concat(seq![head], tail);
        lemma_all_children_single(head);
        assert((b + head.children()) + all_children(tail) =~= b + all_children(a));
        assert(breadth_first(queue) =~= forest_level(a, 0) + breadth_first(b + all_children(a)));
    }
}

/// A breadth-first walk over a forest emits the forest level by level.
proof fn lemma_breadth_first_by_levels(f: Seq<Expr>, n: nat)
    requires
        forest_within(f, n),
    ensures
        breadth_first(f) == forest_levels_between(f, 0, n),
    decreases n,
{
    if n == 0 {
        if f.len() != 0 {
            lemma_height_positive(f[0]);
        }
    } else {
        let kids = all_children(f);
        lemma_breadth_first_generation(f, Seq::empty());
        assert(f + Seq::<Expr>::empty() =~= f);
        assert(Seq::<Expr>::empty() + kids =~= kids);
        lemma_all_children_within(f, n);
        lemma_breadth_first_by_levels(kids, (n - 1) as nat);
        lemma_all_children_levels(f, 0, (n - 1) as nat);
    }
}

/// The levels of a single tree, taken as a sequence, are the levels of the
/// tree.
proof fn lemma_forest_levels_single(t: Expr, lo: nat, hi: nat)
    ensures
        forest_levels_between(seq![t], lo, hi) == levels_between(t, lo, hi),
    decreases hi - lo,
{
    if lo < hi {
        lemma_forest_level_single(t, lo);
        lemma_forest_levels_single(t, lo + 1, hi);
    }
}

/// The breadth-first walk from the root of a tree emits the symbols of the
/// tree level by level, each level from left to right.
pub proof fn theorem_breadth_first_is_level_order(t: Expr)
    ensures
        breadth_first(seq![t]) == level_order(t),
        queue_encoding(t) == level_order(t).reverse(),
{
    assert(forest_within(seq![t], height(t)));
    lemma_breadth_first_by_levels(seq![t], height(t));
    lemma_forest_levels_single(t, 0, height(t));
}

} // verus!
