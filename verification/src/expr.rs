//! The expression tree: a binary tree whose leaves carry operand symbols and
//! whose internal nodes carry operator symbols.

use crate::symbol::{operand, operator};
use vstd::prelude::*;

verus! {

/// A binary expression tree. Each child is owned by its parent alone.
#[derive(Debug, PartialEq, Eq)]
pub enum Expr {
    /// A terminal carrying an operand symbol.
    Leaf(u8),
    /// An operator symbol applied to a left and a right subtree.
    Node(u8, Box<Expr>, Box<Expr>),
}

impl Clone for Expr {
    /// Copies the tree, node by node.
    fn clone(&self) -> (res: Self)
        ensures
            res == *self,
        decreases self,
    {
        match self {
            Expr::Leaf(c) => Expr::Leaf(*c),
            Expr::Node(c, l, r) => {
                let left = (&**l).clone();
                let right = (&**r).clone();
                Expr::Node(*c, Box::new(left), Box::new(right))
            },
        }
    }
}

impl Expr {
    /// The symbol at the root of the tree.
    pub open spec fn symbol(self) -> u8 {
        match self {
            Expr::Leaf(c) => c,
            Expr::Node(c, _, _) => c,
        }
    }

    /// The subtrees directly below the root, left before right.
    pub open spec fn children(self) -> Seq<Expr> {
        match self {
            Expr::Leaf(_) => Seq::empty(),
            Expr::Node(_, l, r) => seq![*l, *r],
        }
    }

    /// The number of symbols in the tree.
    pub open spec fn size(self) -> nat
        decreases self,
    {
        match self {
            Expr::Leaf(_) => 1,
            Expr::Node(_, l, r) => 1 + l.size() + r.size(),
        }
    }

    /// A tree is well formed when every leaf carries an operand symbol and
    /// every internal node carries an operator symbol.
    pub open spec fn well_formed(self) -> bool
        decreases self,
    {
        match self {
            Expr::Leaf(c) => operand(c),
            Expr::Node(c, l, r) => operator(c) && l.well_formed() && r.well_formed(),
        }
    }
}

/// The number of symbols in a sequence of trees.
pub open spec fn forest_size(f: Seq<Expr>) -> nat
    decreases f.len(),
{
    if f.len() == 0 {
        0
    } else {
        forest_size(f.drop_last()) + f.last().size()
    }
}

/// Every tree of the sequence is well formed.
pub open spec fn forest_well_formed(f: Seq<Expr>) -> bool {
    forall|i: int| 0 <= i < f.len() ==> (#[trigger] f[i]).well_formed()
}

/// The size of a concatenation is the sum of the sizes.
pub proof fn lemma_forest_size_concat(a: Seq<Expr>, b: Seq<Expr>)
    ensures
        forest_size(a + b) == forest_size(a) + forest_size(b),
    decreases b.len(),
{
    if b.len() == 0 {
        assert(a + b =~= a);
    } else {
        assert((a + b).drop_last() =~= a + b.drop_last());
        lemma_forest_size_concat(a, b.drop_last());
    }
}

/// A single tree, taken as a sequence, has the size of the tree.
proof fn lemma_forest_size_single(t: Expr)
    ensures
        forest_size(seq![t]) == t.size(),
{
    let f = seq![t];
    assert(f.drop_last() =~= Seq::<Expr>::empty());
    assert(forest_size(f.drop_last()) == 0);
    assert(f.last() == t);
}

/// The front tree accounts for its own size within a non-empty sequence.
pub proof fn lemma_forest_size_front(f: Seq<Expr>)
    requires
        f.len() > 0,
    ensures
        forest_size(f) == f[0].size() + forest_size(f.skip(1)),
{
    assert(f =~= seq![f[0]] + f.skip(1));
    lemma_forest_size_concat(seq![f[0]], f.skip(1));
    lemma_forest_size_single(f[0]);
}

/// The children of a tree hold every symbol of the tree but the root's.
pub proof fn lemma_children_size(t: Expr)
    ensures
        forest_size(t.children()) + 1 == t.size(),
{
    match t {
        Expr::Leaf(_) => {
            assert(t.children().len() == 0);
        },
        Expr::Node(_, l, r) => {
            assert(t.children() =~= seq![*l] + seq![*r]);
            lemma_forest_size_concat(seq![*l], seq![*r]);
            lemma_forest_size_single(*l);
            lemma_forest_size_single(*r);
        },
    }
}

} // verus!
