use vstd::prelude::*;

use crate::item::Function;
use crate::span::{Span, Spanned};
use crate::token::{Numeric, Operator};

verus! {

/// The precedence-correct computation tree. Each composite node owns its
/// children outright; a node's span covers its children's spans, so a
/// runtime failure can point back into the source text.
pub enum Node {
    Terminal(Numeric),
    Variable(Vec<u8>),
    Function(Function, Box<Spanned<Node>>),
    Operator(Spanned<Operator>, Box<Spanned<Node>>, Box<Spanned<Node>>),
}

/// Span attribution inside a tree: a function application ends where its
/// operand ends, and a binary operation starts at its left child's start
/// and ends at its right child's end.
pub open spec fn node_spans_ok(n: Spanned<Node>) -> bool
    decreases n,
{
    match n.node {
        Node::Terminal(_) => true,
        Node::Variable(_) => true,
        Node::Function(_, child) => node_spans_ok(*child) && n.span.1 == child.span.1,
        Node::Operator(_, left, right) => node_spans_ok(*left) && node_spans_ok(*right)
            && n.span.0 == left.span.0 && n.span.1 == right.span.1,
    }
}

} // verus!
