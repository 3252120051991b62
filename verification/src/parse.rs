use vstd::prelude::*;

use crate::coalescence::{is_valued, run_state, wf, Coalescence};
use crate::item::Function;
use crate::node::{node_spans_ok, Node};
use crate::span::{Span, Spanned};
use crate::token::{Numeric, Operator};

verus! {

// --- What a tree is made of ---------------------------------------------------
// The parser reorders nothing and loses nothing: reading the finished tree
// left to right gives back exactly the units the coalescer produced. These
// atoms are that reading.

pub enum Atom {
    Terminal(Spanned<Numeric>),
    Variable(Span, Seq<u8>),
    Operator(Spanned<Operator>),
    /// A prefix function and the byte at which its name starts.
    Function(Function, usize),
}

/// The in-order reading of a tree: left child, operator, right child; a
/// function before its operand.
pub open spec fn flatten_node(n: Spanned<Node>) -> Seq<Atom>
    decreases n,
{
    match n.node {
        Node::Terminal(terminal) => seq![Atom::Terminal(Spanned { node: terminal, span: n.span })],
        Node::Variable(variable) => seq![Atom::Variable(n.span, variable@)],
        Node::Function(function, child) => seq![Atom::Function(function, n.span.0)]
            + flatten_node(*child),
        Node::Operator(operator, left, right) => flatten_node(*left) + seq![
            Atom::Operator(operator),
        ] + flatten_node(*right),
    }
}

/// The in-order reading of a coalescence: groups dissolve into their units.
pub open spec fn flatten_coalescence(c: Coalescence) -> Seq<Atom>
    decreases c,
{
    match c {
        Coalescence::Multiple(units) => flatten_units(units@),
        Coalescence::Operator(operator) => seq![Atom::Operator(operator)],
        Coalescence::Terminal(terminal) => seq![Atom::Terminal(terminal)],
        Coalescence::Variable(variable) => seq![Atom::Variable(variable.span, variable.node@)],
        Coalescence::Function(function) => seq![Atom::Function(function.node, function.span.0)],
    }
}

pub open spec fn flatten_units(s: Seq<Coalescence>) -> Seq<Atom>
    decreases s,
{
    if s.len() == 0 {
        Seq::empty()
    } else {
        flatten_coalescence(s[0]) + flatten_units(s.drop_first())
    }
}

pub proof fn lemma_flatten_units_push(s: Seq<Coalescence>, x: Coalescence)
    ensures
        flatten_units(s.push(x)) == flatten_units(s) + flatten_coalescence(x),
    decreases s.len(),
{
    if s.len() == 0 {
        assert(s.push(x)[0] == x);
        assert(s.push(x).drop_first() =~= Seq::<Coalescence>::empty());
        assert(flatten_units(Seq::<Coalescence>::empty()) == Seq::<Atom>::empty());
        assert(flatten_coalescence(x) + Seq::<Atom>::empty() =~= flatten_coalescence(x));
        assert(Seq::<Atom>::empty() + flatten_coalescence(x) =~= flatten_coalescence(x));
    } else {
        assert(s.push(x)[0] == s[0]);
        assert(s.push(x).drop_first() =~= s.drop_first().push(x));
        lemma_flatten_units_push(s.drop_first(), x);
        assert(flatten_coalescence(s[0]) + (flatten_units(s.drop_first()) + flatten_coalescence(x))
            =~= (flatten_coalescence(s[0]) + flatten_units(s.drop_first())) + flatten_coalescence(
            x,
        ));
    }
}

pub proof fn lemma_flatten_units_concat(a: Seq<Coalescence>, b: Seq<Coalescence>)
    ensures
        flatten_units(a + b) == flatten_units(a) + flatten_units(b),
    decreases b.len(),
{
    if b.len() == 0 {
        assert(a + b =~= a);
        assert(flatten_units(b) == Seq::<Atom>::empty());
        assert(flatten_units(a) + Seq::<Atom>::empty() =~= flatten_units(a));
    } else {
        lemma_flatten_units_concat(a, b.drop_last());
        lemma_flatten_units_push(a + b.drop_last(), b.last());
        assert((a + b.drop_last()).push(b.last()) =~= a + b);
        assert(flatten_units(a + b) == (flatten_units(a) + flatten_units(b.drop_last()))
            + flatten_coalescence(b.last()));
        lemma_flatten_units_push(b.drop_last(), b.last());
        assert(b.drop_last().push(b.last()) =~= b);
        assert(flatten_units(b) == flatten_units(b.drop_last()) + flatten_coalescence(b.last()));
        assert((flatten_units(a) + flatten_units(b.drop_last())) + flatten_coalescence(b.last())
            =~= flatten_units(a) + (flatten_units(b.drop_last()) + flatten_coalescence(b.last())));
    }
}

// --- The operator stack --------------------------------------------------------

/// An entry on the operator stack: a pending binary operator, or a pending
/// prefix function awaiting its single operand.
pub enum ParserOperator {
    Operator(Spanned<Operator>),
    Function(Spanned<Function>),
}

impl ParserOperator {
    /// A pending function binds tighter than any binary operator: it closes
    /// over exactly the one operand that follows it.
    pub fn precedence(&self) -> (p: usize)
        ensures
            p == self.spec_precedence(),
    {
        match self {
            ParserOperator::Operator(operator) => operator.node.precedence(),
            ParserOperator::Function(_) => usize::MAX,
        }
    }

    pub open spec fn spec_precedence(self) -> usize {
        match self {
            ParserOperator::Operator(operator) => operator.node.spec_precedence(),
            ParserOperator::Function(_) => usize::MAX,
        }
    }
}

/// How many entries of an operator stack are binary operators.
pub open spec fn bincount(s: Seq<ParserOperator>) -> int
    decreases s.len(),
{
    if s.len() == 0 {
        0
    } else {
        bincount(s.drop_last()) + (if s.last() is Operator {
            1int
        } else {
            0int
        })
    }
}

proof fn lemma_bincount_nonneg(s: Seq<ParserOperator>)
    ensures
        bincount(s) >= 0,
    decreases s.len(),
{
    if s.len() > 0 {
        lemma_bincount_nonneg(s.drop_last());
    }
}

// --- The operand-first reading, and the parse it must equal ---------------------
// The in-order reading above says which units a tree holds; this
// operand-first reading says how they are shaped. Fixed arities make the
// operand-first form unambiguous, so a tree that matches both readings is
// pinned completely: associativity, function binding and grouping included.

/// The operand-first reading of a tree: operands before the operation that
/// combines them.
pub open spec fn flatten_post(n: Spanned<Node>) -> Seq<Atom>
    decreases n,
{
    match n.node {
        Node::Terminal(terminal) => seq![Atom::Terminal(Spanned { node: terminal, span: n.span })],
        Node::Variable(variable) => seq![Atom::Variable(n.span, variable@)],
        Node::Function(function, child) => flatten_post(*child) + seq![
            Atom::Function(function, n.span.0),
        ],
        Node::Operator(operator, left, right) => (flatten_post(*left) + flatten_post(*right))
            + seq![Atom::Operator(operator)],
    }
}

pub open spec fn flat_post_nodes(nodes: Seq<Spanned<Node>>) -> Seq<Atom>
    decreases nodes.len(),
{
    if nodes.len() == 0 {
        Seq::empty()
    } else {
        flat_post_nodes(nodes.drop_last()) + flatten_post(nodes.last())
    }
}

/// The atom a pending stack entry emits when it is folded.
pub open spec fn entry_atom(entry: ParserOperator) -> Atom {
    match entry {
        ParserOperator::Operator(operator) => Atom::Operator(operator),
        ParserOperator::Function(function) => Atom::Function(function.node, function.span.0),
    }
}

/// Folds every pending entry that binds at least as tightly as the given
/// precedence, emitting each in turn.
pub open spec fn pop_run(stack: Seq<ParserOperator>, out: Seq<Atom>, precedence: usize) -> (
    Seq<ParserOperator>,
    Seq<Atom>,
)
    decreases stack.len(),
{
    if stack.len() > 0 && stack.last().spec_precedence() >= precedence {
        pop_run(stack.drop_last(), out + seq![entry_atom(stack.last())], precedence)
    } else {
        (stack, out)
    }
}

/// Folds every remaining pending entry, topmost first.
pub open spec fn wind_down(stack: Seq<ParserOperator>) -> Seq<Atom>
    decreases stack.len(),
{
    if stack.len() == 0 {
        Seq::empty()
    } else {
        seq![entry_atom(stack.last())] + wind_down(stack.drop_last())
    }
}

/// Precedence climbing over one group's units, declaratively: a valued
/// unit emits its own parse; a function waits on the stack; a binary
/// operator first folds everything that binds at least as tightly (which
/// makes equal precedence associate to the left), then waits; at the end
/// of the group everything pending folds.
pub open spec fn shunt(
    s: Seq<Coalescence>,
    i: int,
    stack: Seq<ParserOperator>,
    out: Seq<Atom>,
) -> Seq<Atom>
    decreases s, s.len() - i,
{
    if i < 0 || i >= s.len() {
        out + wind_down(stack)
    } else {
        match s[i] {
            Coalescence::Operator(operator) => {
                let run = pop_run(stack, out, operator.node.spec_precedence());
                shunt(s, i + 1, run.0.push(ParserOperator::Operator(operator)), run.1)
            },
            Coalescence::Function(function) => shunt(
                s,
                i + 1,
                stack.push(ParserOperator::Function(function)),
                out,
            ),
            _ => shunt(s, i + 1, stack, out + spec_parse(s[i])),
        }
    }
}

/// The operand-first program a coalescence parses to.
pub open spec fn spec_parse(c: Coalescence) -> Seq<Atom>
    decreases c, 0int,
{
    match c {
        Coalescence::Multiple(units) => shunt(units@, 0, Seq::empty(), Seq::empty()),
        Coalescence::Operator(operator) => seq![Atom::Operator(operator)],
        Coalescence::Terminal(terminal) => seq![Atom::Terminal(terminal)],
        Coalescence::Variable(variable) => seq![Atom::Variable(variable.span, variable.node@)],
        Coalescence::Function(function) => seq![Atom::Function(function.node, function.span.0)],
    }
}

// --- The reading of an in-progress state ----------------------------------------

pub open spec fn flat_nodes(nodes: Seq<Spanned<Node>>) -> Seq<Atom>
    decreases nodes.len(),
{
    if nodes.len() == 0 {
        Seq::empty()
    } else {
        flat_nodes(nodes.drop_last()) + flatten_node(nodes.last())
    }
}

/// The in-order reading of the parser's two stacks. `valued` says whether
/// the most recent unit completed a value; when it did, the top stack entry
/// (if any) stands immediately before that last value in source order.
pub open spec fn flat_state(
    nodes: Seq<Spanned<Node>>,
    operators: Seq<ParserOperator>,
    valued: bool,
) -> Seq<Atom>
    decreases operators.len(),
{
    if operators.len() == 0 {
        flat_nodes(nodes)
    } else {
        match operators.last() {
            ParserOperator::Function(f) => if valued {
                flat_state(nodes.drop_last(), operators.drop_last(), false) + seq![
                    Atom::Function(f.node, f.span.0),
                ] + flatten_node(nodes.last())
            } else {
                flat_state(nodes, operators.drop_last(), false) + seq![Atom::Function(f.node, f.span.0)]
            },
            ParserOperator::Operator(o) => if valued {
                flat_state(nodes.drop_last(), operators.drop_last(), true) + seq![
                    Atom::Operator(o),
                ] + flatten_node(nodes.last())
            } else {
                flat_state(nodes, operators.drop_last(), true) + seq![Atom::Operator(o)]
            },
        }
    }
}

proof fn lemma_flat_post_nodes_push(nodes: Seq<Spanned<Node>>, n: Spanned<Node>)
    ensures
        flat_post_nodes(nodes.push(n)) == flat_post_nodes(nodes) + flatten_post(n),
{
    assert(nodes.push(n).drop_last() =~= nodes);
    assert(nodes.push(n).last() == n);
}

proof fn lemma_flat_nodes_push(nodes: Seq<Spanned<Node>>, n: Spanned<Node>)
    ensures
        flat_nodes(nodes.push(n)) == flat_nodes(nodes) + flatten_node(n),
{
    assert(nodes.push(n).drop_last() =~= nodes);
    assert(nodes.push(n).last() == n);
}

/// Completing a value pushes its reading at the end of the state's reading.
proof fn lemma_flat_state_push_node(
    nodes: Seq<Spanned<Node>>,
    operators: Seq<ParserOperator>,
    n: Spanned<Node>,
)
    ensures
        flat_state(nodes.push(n), operators, true) == flat_state(nodes, operators, false)
            + flatten_node(n),
{
    if operators.len() == 0 {
        lemma_flat_nodes_push(nodes, n);
    } else {
        assert(nodes.push(n).drop_last() =~= nodes);
        assert(nodes.push(n).last() == n);
        match operators.last() {
            ParserOperator::Function(f) => {
                assert((flat_state(nodes, operators.drop_last(), false) + seq![
                    Atom::Function(f.node, f.span.0),
                ]) + flatten_node(n) =~= flat_state(nodes, operators.drop_last(), false) + seq![
                    Atom::Function(f.node, f.span.0),
                ] + flatten_node(n));
            },
            ParserOperator::Operator(o) => {
                assert((flat_state(nodes, operators.drop_last(), true) + seq![
                    Atom::Operator(o),
                ]) + flatten_node(n) =~= flat_state(nodes, operators.drop_last(), true) + seq![
                    Atom::Operator(o),
                ] + flatten_node(n));
            },
        }
    }
}

pub proof fn lemma_seq_add_assoc(a: Seq<Atom>, b: Seq<Atom>, c: Seq<Atom>)
    ensures
        (a + b) + c == a + (b + c),
{
    assert((a + b) + c =~= a + (b + c));
}

/// Folding the top stack entry into the nodes keeps the state's reading.
proof fn lemma_flat_state_construct(
    old_nodes: Seq<Spanned<Node>>,
    operators: Seq<ParserOperator>,
    new_nodes: Seq<Spanned<Node>>,
)
    requires
        operators.len() > 0,
        match operators.last() {
            ParserOperator::Function(f) => {
                &&& old_nodes.len() >= 1
                &&& new_nodes.len() == old_nodes.len()
                &&& new_nodes.drop_last() == old_nodes.drop_last()
                &&& flatten_node(new_nodes.last()) == seq![Atom::Function(f.node, f.span.0)] + flatten_node(
                    old_nodes.last(),
                )
            },
            ParserOperator::Operator(o) => {
                &&& old_nodes.len() >= 2
                &&& new_nodes.len() == old_nodes.len() - 1
                &&& new_nodes.drop_last() == old_nodes.drop_last().drop_last()
                &&& flatten_node(new_nodes.last()) == flatten_node(
                    old_nodes[old_nodes.len() - 2],
                ) + seq![Atom::Operator(o)] + flatten_node(old_nodes.last())
            },
        },
    ensures
        flat_state(new_nodes, operators.drop_last(), true) == flat_state(
            old_nodes,
            operators,
            true,
        ),
{
    let rest = operators.drop_last();
    assert(new_nodes =~= new_nodes.drop_last().push(new_nodes.last()));
    lemma_flat_state_push_node(new_nodes.drop_last(), rest, new_nodes.last());
    match operators.last() {
        ParserOperator::Function(f) => {
            assert(old_nodes =~= old_nodes.drop_last().push(old_nodes.last()));
            assert(flat_state(old_nodes, operators, true) == flat_state(
                old_nodes.drop_last(),
                rest,
                false,
            ) + seq![Atom::Function(f.node, f.span.0)] + flatten_node(old_nodes.last()));
            lemma_seq_add_assoc(
                flat_state(old_nodes.drop_last(), rest, false),
                seq![Atom::Function(f.node, f.span.0)],
                flatten_node(old_nodes.last()),
            );
        },
        ParserOperator::Operator(o) => {
            let left = old_nodes[old_nodes.len() - 2];
            assert(old_nodes.drop_last().last() == left);
            assert(old_nodes.drop_last() =~= old_nodes.drop_last().drop_last().push(left));
            lemma_flat_state_push_node(old_nodes.drop_last().drop_last(), rest, left);
            assert(flat_state(old_nodes, operators, true) == flat_state(
                old_nodes.drop_last(),
                rest,
                true,
            ) + seq![Atom::Operator(o)] + flatten_node(old_nodes.last()));
            let prefix = flat_state(old_nodes.drop_last().drop_last(), rest, false);
            assert(flat_state(old_nodes.drop_last(), rest, true) == prefix + flatten_node(left));
            lemma_seq_add_assoc(prefix + flatten_node(left), seq![Atom::Operator(o)], flatten_node(
                old_nodes.last(),
            ));
            lemma_seq_add_assoc(prefix, flatten_node(left), seq![Atom::Operator(o)] + flatten_node(
                old_nodes.last(),
            ));
            lemma_seq_add_assoc(flatten_node(left), seq![Atom::Operator(o)], flatten_node(
                old_nodes.last(),
            ));
            lemma_seq_add_assoc(prefix, flatten_node(left) + seq![Atom::Operator(o)], flatten_node(
                old_nodes.last(),
            ));
        },
    }
}

/// One fold applied to the stacks of a level: the reading above the
/// level's two bases is kept, and everything below them is untouched.
proof fn lemma_construct_step(
    before_nodes: Seq<Spanned<Node>>,
    before_operators: Seq<ParserOperator>,
    after_nodes: Seq<Spanned<Node>>,
    base: int,
    state: int,
)
    requires
        0 <= state < before_operators.len(),
        0 <= base < before_nodes.len(),
        (before_operators.last() is Operator) ==> before_nodes.len() >= base + 2,
        match before_operators.last() {
            ParserOperator::Function(f) => {
                &&& after_nodes.len() == before_nodes.len()
                &&& after_nodes.drop_last() == before_nodes.drop_last()
                &&& flatten_node(after_nodes.last()) == seq![Atom::Function(f.node, f.span.0)]
                    + flatten_node(before_nodes.last())
                &&& flatten_post(after_nodes.last()) == flatten_post(before_nodes.last()) + seq![
                    Atom::Function(f.node, f.span.0),
                ]
            },
            ParserOperator::Operator(o) => {
                &&& after_nodes.len() == before_nodes.len() - 1
                &&& after_nodes.drop_last() == before_nodes.drop_last().drop_last()
                &&& flatten_node(after_nodes.last()) == flatten_node(
                    before_nodes[before_nodes.len() - 2],
                ) + seq![Atom::Operator(o)] + flatten_node(before_nodes.last())
                &&& flatten_post(after_nodes.last()) == (flatten_post(
                    before_nodes[before_nodes.len() - 2],
                ) + flatten_post(before_nodes.last())) + seq![Atom::Operator(o)]
            },
        },
    ensures
        after_nodes.take(base) == before_nodes.take(base),
        flat_state(after_nodes.skip(base), before_operators.drop_last().skip(state), true)
            == flat_state(before_nodes.skip(base), before_operators.skip(state), true),
        flat_post_nodes(after_nodes.skip(base)) == flat_post_nodes(before_nodes.skip(base))
            + seq![entry_atom(before_operators.last())],
{
    let old_level = before_nodes.skip(base);
    let new_level = after_nodes.skip(base);
    assert(old_level.last() == before_nodes.last());
    assert(new_level.last() == after_nodes.last());
    assert(before_operators.skip(state).last() == before_operators.last());
    assert(before_operators.drop_last().skip(state) =~= before_operators.skip(state).drop_last());
    match before_operators.last() {
        ParserOperator::Function(f) => {
            assert forall|i: int| 0 <= i < before_nodes.len() - 1 implies after_nodes[i]
                == #[trigger] before_nodes[i] by {
                assert(after_nodes.drop_last()[i] == before_nodes.drop_last()[i]);
            }
            assert(after_nodes.take(base) =~= before_nodes.take(base));
            assert(new_level.drop_last() =~= old_level.drop_last());
            assert(flat_post_nodes(new_level) == flat_post_nodes(old_level.drop_last()) + (
            flatten_post(old_level.last()) + seq![entry_atom(before_operators.last())]));
            lemma_seq_add_assoc(
                flat_post_nodes(old_level.drop_last()),
                flatten_post(old_level.last()),
                seq![entry_atom(before_operators.last())],
            );
        },
        ParserOperator::Operator(o) => {
            assert forall|i: int| 0 <= i < before_nodes.len() - 2 implies after_nodes[i]
                == #[trigger] before_nodes[i] by {
                assert(after_nodes.drop_last()[i] == before_nodes.drop_last().drop_last()[i]);
            }
            assert(after_nodes.take(base) =~= before_nodes.take(base));
            assert(new_level.drop_last() =~= old_level.drop_last().drop_last());
            assert(old_level[old_level.len() - 2] == before_nodes[before_nodes.len() - 2]);
            let left = flatten_post(old_level[old_level.len() - 2]);
            let right = flatten_post(old_level.last());
            let folded = seq![entry_atom(before_operators.last())];
            let front = flat_post_nodes(old_level.drop_last().drop_last());
            assert(flat_post_nodes(old_level.drop_last()) == front + left);
            assert(flat_post_nodes(old_level) == (front + left) + right);
            assert(flat_post_nodes(new_level) == front + ((left + right) + folded));
            assert(front + ((left + right) + folded) =~= ((front + left) + right) + folded);
        },
    }
    lemma_flat_state_construct(old_level, before_operators.skip(state), new_level);
}

// --- Folding the top of the stack ------------------------------------------------

/// Pops the top pending entry and folds it with the most recent value (or
/// the two most recent, for a binary operator) into one tree node whose
/// span covers its parts.
fn construct(operators: &mut Vec<ParserOperator>, nodes: &mut Vec<Spanned<Node>>)
    requires
        old(operators)@.len() > 0,
        (old(operators)@.last() is Operator) ==> old(nodes)@.len() >= 2,
        (old(operators)@.last() is Function) ==> old(nodes)@.len() >= 1,
        forall|i: int| 0 <= i < old(nodes)@.len() ==> node_spans_ok(#[trigger] old(nodes)@[i]),
    ensures
        final(operators)@ == old(operators)@.drop_last(),
        final(nodes)@.len() >= 1,
        forall|i: int| 0 <= i < final(nodes)@.len() ==> node_spans_ok(#[trigger] final(nodes)@[i]),
        match old(operators)@.last() {
            ParserOperator::Function(f) => {
                &&& final(nodes)@.len() == old(nodes)@.len()
                &&& final(nodes)@.drop_last() == old(nodes)@.drop_last()
                &&& flatten_node(final(nodes)@.last()) == seq![Atom::Function(f.node, f.span.0)]
                    + flatten_node(old(nodes)@.last())
                &&& flatten_post(final(nodes)@.last()) == flatten_post(old(nodes)@.last()) + seq![
                    Atom::Function(f.node, f.span.0),
                ]
                &&& final(nodes)@.last().span == Span(f.span.0, old(nodes)@.last().span.1)
            },
            ParserOperator::Operator(o) => {
                &&& final(nodes)@.len() == old(nodes)@.len() - 1
                &&& final(nodes)@.drop_last() == old(nodes)@.drop_last().drop_last()
                &&& flatten_node(final(nodes)@.last()) == flatten_node(
                    old(nodes)@[old(nodes)@.len() - 2],
                ) + seq![Atom::Operator(o)] + flatten_node(old(nodes)@.last())
                &&& flatten_post(final(nodes)@.last()) == (flatten_post(
                    old(nodes)@[old(nodes)@.len() - 2],
                ) + flatten_post(old(nodes)@.last())) + seq![Atom::Operator(o)]
                &&& final(nodes)@.last().span == Span(
                    old(nodes)@[old(nodes)@.len() - 2].span.0,
                    old(nodes)@.last().span.1,
                )
            },
        },
{
    let operator = operators.pop().unwrap();
    match operator {
        ParserOperator::Operator(operator) => {
            let right = nodes.pop().unwrap();
            let left = nodes.pop().unwrap();
            let span = Span(left.span.byte_start(), right.span.byte_end());
            let node = Node::Operator(operator, Box::new(left), Box::new(right));
            proof {
                assert(old(nodes)@.drop_last().last() == old(nodes)@[old(nodes)@.len() - 2]);
            }
            nodes.push(Spanned::new(node, span));
            proof {
                assert(final(nodes)@.drop_last() =~= old(nodes)@.drop_last().drop_last());
                assert(flatten_node(final(nodes)@.last()) == flatten_node(
                    old(nodes)@[old(nodes)@.len() - 2],
                ) + seq![Atom::Operator(operator)] + flatten_node(old(nodes)@.last()));
                assert(flatten_post(final(nodes)@.last()) == (flatten_post(
                    old(nodes)@[old(nodes)@.len() - 2],
                ) + flatten_post(old(nodes)@.last())) + seq![Atom::Operator(operator)]);
            }
        },
        ParserOperator::Function(function) => {
            let node = nodes.pop().unwrap();
            let span = Span(function.span.byte_start(), node.span.byte_end());
            let node = Node::Function(function.node, Box::new(node));
            nodes.push(Spanned::new(node, span));
            proof {
                assert(final(nodes)@.drop_last() =~= old(nodes)@.drop_last());
            }
        },
    }
}

// --- The parser --------------------------------------------------------------------

/// Parses a well-formed coalescence into a single tree. The parser is
/// total: the coalescer has already rejected anything it cannot structure.
/// The tree is pinned completely: its in-order reading gives exactly the
/// coalescence's units, its operand-first reading is the precedence
/// climb's program — which fixed arities make unambiguous — and every
/// node's span covers its children.
pub fn parse_root(coalescence: Coalescence) -> (root: Spanned<Node>)
    requires
        wf(coalescence),
        is_valued(coalescence),
    ensures
        flatten_node(root) == flatten_coalescence(coalescence),
        flatten_post(root) == spec_parse(coalescence),
        node_spans_ok(root),
{
    let ghost this = coalescence;
    let mut operators: Vec<ParserOperator> = Vec::new();
    let mut nodes: Vec<Spanned<Node>> = Vec::new();
    parse(coalescence, &mut operators, 0, &mut nodes, Ghost(false), Ghost(0));
    proof {
        assert(nodes@.len() == 1);
    }
    let root = nodes.pop().unwrap();
    root
}

/// Feeds one unit into the two stacks. A value or a finished group lands
/// on the value stack; a function waits on the operator stack above every
/// binary operator; a binary operator first folds everything at this level
/// that binds at least as tightly (which makes equal precedence associate
/// to the left), then waits itself; a group runs its units at a fresh level
/// and folds the level away before handing its single tree back.
fn parse(
    coalescence: Coalescence,
    operators: &mut Vec<ParserOperator>,
    state: usize,
    nodes: &mut Vec<Spanned<Node>>,
    valued: Ghost<bool>,
    base: Ghost<int>,
)
    requires
        wf(coalescence),
        state <= old(operators)@.len(),
        0 <= base@ <= old(nodes)@.len(),
        old(nodes)@.len() == base@ + bincount(old(operators)@.skip(state as int)) + (if valued@ {
            1int
        } else {
            0int
        }),
        match coalescence {
            Coalescence::Operator(_) => valued@,
            Coalescence::Function(_) => !valued@,
            _ => !valued@,
        },
        forall|i: int| 0 <= i < old(nodes)@.len() ==> node_spans_ok(#[trigger] old(nodes)@[i]),
    ensures
        final(operators)@.len() >= state,
        final(operators)@.take(state as int) == old(operators)@.take(state as int),
        final(nodes)@.len() >= base@,
        final(nodes)@.take(base@) == old(nodes)@.take(base@),
        forall|i: int| 0 <= i < final(nodes)@.len() ==> node_spans_ok(#[trigger] final(nodes)@[i]),
        match coalescence {
            Coalescence::Operator(o) => {
                &&& final(nodes)@.len() == base@ + bincount(final(operators)@.skip(state as int))
                &&& flat_state(
                    final(nodes)@.skip(base@),
                    final(operators)@.skip(state as int),
                    false,
                ) == flat_state(
                    old(nodes)@.skip(base@),
                    old(operators)@.skip(state as int),
                    true,
                ) + seq![Atom::Operator(o)]
                &&& ({
                    let run = pop_run(
                        old(operators)@.skip(state as int),
                        flat_post_nodes(old(nodes)@.skip(base@)),
                        o.node.spec_precedence(),
                    );
                    &&& final(operators)@.skip(state as int) == run.0.push(
                        ParserOperator::Operator(o),
                    )
                    &&& flat_post_nodes(final(nodes)@.skip(base@)) == run.1
                })
            },
            Coalescence::Function(f) => {
                &&& final(operators)@ == old(operators)@.push(ParserOperator::Function(f))
                &&& final(nodes)@ == old(nodes)@
                &&& final(nodes)@.len() == base@ + bincount(final(operators)@.skip(state as int))
                &&& flat_state(
                    final(nodes)@.skip(base@),
                    final(operators)@.skip(state as int),
                    false,
                ) == flat_state(
                    old(nodes)@.skip(base@),
                    old(operators)@.skip(state as int),
                    false,
                ) + seq![Atom::Function(f.node, f.span.0)]
            },
            _ => {
                &&& final(operators)@ == old(operators)@
                &&& final(nodes)@.len() == old(nodes)@.len() + 1
                &&& final(nodes)@.take(old(nodes)@.len() as int) == old(nodes)@
                &&& flatten_node(final(nodes)@.last()) == flatten_coalescence(coalescence)
                &&& flatten_post(final(nodes)@.last()) == spec_parse(coalescence)
                &&& node_spans_ok(final(nodes)@.last())
            },
        },
    decreases coalescence,
{
    let ghost this = coalescence;
    match coalescence {
        Coalescence::Terminal(terminal) => {
            nodes.push(Spanned::new(Node::Terminal(terminal.node), terminal.span));
            proof {
                assert(nodes@.take(old(nodes)@.len() as int) =~= old(nodes)@);
                assert(flatten_post(nodes@.last()) == seq![Atom::Terminal(terminal)]);
            }
        },
        Coalescence::Variable(variable) => {
            let ghost name = variable.node@;
            nodes.push(Spanned::new(Node::Variable(variable.node), variable.span));
            proof {
                assert(nodes@.take(old(nodes)@.len() as int) =~= old(nodes)@);
                assert(flatten_post(nodes@.last()) == seq![Atom::Variable(variable.span, name)]);
            }
        },
        Coalescence::Function(function) => {
            operators.push(ParserOperator::Function(function));
            proof {
                assert(operators@.take(state as int) =~= old(operators)@.take(state as int));
                assert(operators@.skip(state as int) =~= old(operators)@.skip(state as int).push(
                    ParserOperator::Function(function),
                ));
                assert(operators@.skip(state as int).drop_last() =~= old(operators)@.skip(
                    state as int,
                ));
            }
        },
        Coalescence::Operator(operator) => {
            let ghost pre_operators = old(operators)@;
            let ghost pre_nodes = old(nodes)@;
            let precedence = operator.node.precedence();
            loop
                invariant
                    state <= operators@.len() <= pre_operators.len(),
                    operators@ == pre_operators.take(operators@.len() as int),
                    nodes@.len() == base@ + bincount(operators@.skip(state as int)) + 1,
                    base@ >= 0,
                    nodes@.take(base@) == pre_nodes.take(base@),
                    flat_state(nodes@.skip(base@), operators@.skip(state as int), true)
                        == flat_state(pre_nodes.skip(base@), pre_operators.skip(state as int), true),
                    pop_run(
                        pre_operators.skip(state as int),
                        flat_post_nodes(pre_nodes.skip(base@)),
                        operator.node.spec_precedence(),
                    ) == pop_run(
                        operators@.skip(state as int),
                        flat_post_nodes(nodes@.skip(base@)),
                        operator.node.spec_precedence(),
                    ),
                    precedence == operator.node.spec_precedence(),
                    forall|i: int| 0 <= i < nodes@.len() ==> node_spans_ok(#[trigger] nodes@[i]),
                ensures
                    operators@.len() <= state || operators@.last().spec_precedence()
                        < operator.node.spec_precedence(),
                decreases operators@.len(),
            {
                if operators.len() <= state {
                    break;
                }
                let top = match operators.last() {
                    Some(top) => top.precedence(),
                    None => {
                        break;
                    },
                };
                if top < precedence {
                    break;
                }
                proof {
                    lemma_bincount_nonneg(operators@.skip(state as int).drop_last());
                    assert(operators@.skip(state as int).last() == operators@.last());
                    if operators@.last() is Operator {
                        assert(bincount(operators@.skip(state as int)) >= 1);
                    }
                    assert(nodes@.skip(base@).len() == nodes@.len() - base@);
                }
                let ghost before_nodes = nodes@;
                let ghost before_operators = operators@;
                construct(operators, nodes);
                proof {
                    assert(operators@ =~= pre_operators.take(operators@.len() as int));
                    lemma_construct_step(
                        before_nodes,
                        before_operators,
                        nodes@,
                        base@,
                        state as int,
                    );
                    assert(before_operators.drop_last().skip(state as int) =~= operators@.skip(
                        state as int,
                    ));
                    assert(before_operators.skip(state as int).drop_last() =~= operators@.skip(
                        state as int,
                    ));
                    assert(before_operators.skip(state as int).last() == before_operators.last());
                    assert(bincount(before_operators.skip(state as int)) == bincount(
                        operators@.skip(state as int),
                    ) + (if before_operators.last() is Operator {
                        1int
                    } else {
                        0int
                    }));
                    assert(pop_run(
                        before_operators.skip(state as int),
                        flat_post_nodes(before_nodes.skip(base@)),
                        operator.node.spec_precedence(),
                    ) == pop_run(
                        operators@.skip(state as int),
                        flat_post_nodes(nodes@.skip(base@)),
                        operator.node.spec_precedence(),
                    ));
                }
            }
            proof {
                lemma_bincount_nonneg(operators@.skip(state as int));
                // The loop stopped: nothing pending binds as tightly, so the
                // fold is complete.
                if operators@.len() > state {
                    assert(operators@.skip(state as int).last() == operators@.last());
                }
                assert(pop_run(
                    operators@.skip(state as int),
                    flat_post_nodes(nodes@.skip(base@)),
                    operator.node.spec_precedence(),
                ) == (operators@.skip(state as int), flat_post_nodes(nodes@.skip(base@))));
            }
            let ghost wound = operators@;
            operators.push(ParserOperator::Operator(operator));
            proof {
                assert(operators@.drop_last() =~= wound);
                assert(operators@.take(state as int) =~= wound.take(state as int));
                assert(wound.take(state as int) =~= pre_operators.take(state as int));
                assert(pre_operators.take(pre_operators.len() as int) =~= pre_operators);
                assert(operators@.skip(state as int).drop_last() =~= wound.skip(state as int));
                assert(operators@.skip(state as int).last() == ParserOperator::Operator(operator));
                assert(bincount(operators@.skip(state as int)) == bincount(
                    wound.skip(state as int),
                ) + 1);
                assert(flat_state(nodes@.skip(base@), operators@.skip(state as int), false)
                    == flat_state(nodes@.skip(base@), wound.skip(state as int), true) + seq![
                    Atom::Operator(operator),
                ]);
                assert(operators@.skip(state as int) =~= wound.skip(state as int).push(
                    ParserOperator::Operator(operator),
                ));
                let run = pop_run(
                    pre_operators.skip(state as int),
                    flat_post_nodes(pre_nodes.skip(base@)),
                    operator.node.spec_precedence(),
                );
                assert(run == (wound.skip(state as int), flat_post_nodes(nodes@.skip(base@))));
                assert(operators@.skip(state as int) == run.0.push(
                    ParserOperator::Operator(operator),
                ));
                assert(flat_post_nodes(nodes@.skip(base@)) == run.1);
            }
        },
        Coalescence::Multiple(units) => {
            let ghost all = units@;
            let mut units = units;
            let operator_state = operators.len();
            let ghost sub_base = nodes@.len() as int;
            let ghost mut level_valued: bool = false;
            let ghost mut consumed: int = 0;
            proof {
                assert(all.skip(0) =~= all);
                assert(nodes@.skip(sub_base) =~= Seq::<Spanned<Node>>::empty());
                assert(operators@.skip(operator_state as int) =~= Seq::<ParserOperator>::empty());
                assert(flatten_units(all.take(0)) =~= Seq::<Atom>::empty());
                assert(all.take(0) =~= Seq::<Coalescence>::empty());
                assert(flat_post_nodes(Seq::<Spanned<Node>>::empty()) == Seq::<Atom>::empty());
            }
            #[verifier::loop_isolation(false)]
            while units.len() > 0
                invariant
                    consumed + units@.len() == all.len(),
                    0 <= consumed,
                    units@ == all.skip(consumed),
                    run_state(all.skip(consumed), level_valued) == Some(true),
                    wf(this),
                    this matches Coalescence::Multiple(u0) && u0@ == all,
                    operator_state <= operators@.len(),
                    operators@.take(operator_state as int) == old(operators)@,
                    sub_base == old(nodes)@.len(),
                    nodes@.take(sub_base) == old(nodes)@,
                    nodes@.len() == sub_base + bincount(operators@.skip(operator_state as int)) + (
                    if level_valued {
                        1int
                    } else {
                        0int
                    }),
                    flat_state(
                        nodes@.skip(sub_base),
                        operators@.skip(operator_state as int),
                        level_valued,
                    ) == flatten_units(all.take(consumed)),
                    shunt(
                        all,
                        consumed,
                        operators@.skip(operator_state as int),
                        flat_post_nodes(nodes@.skip(sub_base)),
                    ) == spec_parse(this),
                    forall|i: int| 0 <= i < nodes@.len() ==> node_spans_ok(#[trigger] nodes@[i]),
                decreases units@.len(),
            {
                let unit = units.remove(0);
                proof {
                    assert(unit == all[consumed]);
                    assert(units@ =~= all.skip(consumed + 1));
                    assert(all.skip(consumed).drop_first() =~= all.skip(consumed + 1));
                    assert(all.skip(consumed)[0] == all[consumed]);
                    assert(wf(all[consumed]));
                    lemma_bincount_nonneg(operators@.skip(operator_state as int));
                }
                let ghost unit_ghost = unit;
                let ghost next_valued: bool = match unit {
                    Coalescence::Operator(_) => false,
                    Coalescence::Function(_) => false,
                    _ => true,
                };
                let ghost before_nodes = nodes@;
                let ghost before_operators = operators@;
                proof {
                    assert(decreases_to!(this => this->Multiple_0));
                    assert(decreases_to!(this->Multiple_0 => this->Multiple_0@));
                    assert(decreases_to!(this->Multiple_0@ => this->Multiple_0@[consumed]));
                    assert(this->Multiple_0@ == all);
                }
                parse(unit, operators, operator_state, nodes, Ghost(level_valued), Ghost(sub_base));
                proof {
                    lemma_flatten_units_push(all.take(consumed), unit_ghost);
                    assert(all.take(consumed + 1) =~= all.take(consumed).push(unit_ghost));
                    assert(operators@.take(operator_state as int) =~= before_operators.take(
                        operator_state as int,
                    ));
                    assert(nodes@.take(sub_base) =~= before_nodes.take(sub_base));
                    match unit_ghost {
                        Coalescence::Operator(_) => {},
                        Coalescence::Function(f) => {
                            assert(operators@.skip(operator_state as int) =~= before_operators.skip(
                                operator_state as int,
                            ).push(ParserOperator::Function(f)));
                        },
                        _ => {
                            assert(nodes@.skip(sub_base) =~= before_nodes.skip(sub_base).push(
                                nodes@.last(),
                            ));
                            lemma_flat_state_push_node(
                                before_nodes.skip(sub_base),
                                operators@.skip(operator_state as int),
                                nodes@.last(),
                            );
                            lemma_flat_post_nodes_push(
                                before_nodes.skip(sub_base),
                                nodes@.last(),
                            );
                        },
                    }
                    level_valued = next_valued;
                    consumed = consumed + 1;
                }
            }
            proof {
                assert(all.skip(consumed).len() == 0);
                assert(level_valued == true);
                assert(all.take(consumed) =~= all);
                // The whole level is consumed: only the pending folds remain.
                assert(spec_parse(this) == flat_post_nodes(nodes@.skip(sub_base)) + wind_down(
                    operators@.skip(operator_state as int),
                ));
            }
            while operators.len() > operator_state
                invariant
                    operator_state <= operators@.len(),
                    operators@.take(operator_state as int) == old(operators)@,
                    sub_base == old(nodes)@.len(),
                    nodes@.take(sub_base) == old(nodes)@,
                    nodes@.len() == sub_base + bincount(operators@.skip(operator_state as int)) + 1,
                    flat_state(nodes@.skip(sub_base), operators@.skip(operator_state as int), true)
                        == flatten_units(all),
                    flat_post_nodes(nodes@.skip(sub_base)) + wind_down(
                        operators@.skip(operator_state as int),
                    ) == spec_parse(this),
                    forall|i: int| 0 <= i < nodes@.len() ==> node_spans_ok(#[trigger] nodes@[i]),
                decreases operators@.len(),
            {
                proof {
                    lemma_bincount_nonneg(operators@.skip(operator_state as int).drop_last());
                    assert(operators@.skip(operator_state as int).last() == operators@.last());
                    if operators@.last() is Operator {
                        assert(bincount(operators@.skip(operator_state as int)) >= 1);
                    }
                }
                let ghost before_nodes = nodes@;
                let ghost before_operators = operators@;
                construct(operators, nodes);
                proof {
                    assert(operators@ =~= before_operators.drop_last());
                    assert(operators@.take(operator_state as int) =~= before_operators.take(
                        operator_state as int,
                    ));
                    lemma_construct_step(
                        before_nodes,
                        before_operators,
                        nodes@,
                        sub_base,
                        operator_state as int,
                    );
                    assert(before_operators.drop_last().skip(operator_state as int)
                        =~= operators@.skip(operator_state as int));
                    assert(before_operators.skip(operator_state as int).last()
                        == before_operators.last());
                    assert(before_operators.skip(operator_state as int).drop_last()
                        =~= operators@.skip(operator_state as int));
                    assert(bincount(before_operators.skip(operator_state as int)) == bincount(
                        operators@.skip(operator_state as int),
                    ) + (if before_operators.last() is Operator {
                        1int
                    } else {
                        0int
                    }));
                    lemma_seq_add_assoc(
                        flat_post_nodes(before_nodes.skip(sub_base)),
                        seq![entry_atom(before_operators.last())],
                        wind_down(operators@.skip(operator_state as int)),
                    );
                }
            }
            proof {
                assert(operators@.skip(operator_state as int) =~= Seq::<ParserOperator>::empty());
                assert(operators@ =~= old(operators)@);
                assert(nodes@.len() == sub_base + 1);
                assert(nodes@.skip(sub_base) =~= seq![nodes@.last()]);
                assert(seq![nodes@.last()].drop_last() =~= Seq::<Spanned<Node>>::empty());
                assert(flat_nodes(Seq::<Spanned<Node>>::empty()) == Seq::<Atom>::empty());
                assert(seq![nodes@.last()].last() == nodes@.last());
                assert(Seq::<Atom>::empty() + flatten_node(nodes@.last()) =~= flatten_node(
                    nodes@.last(),
                ));
                assert(flat_nodes(seq![nodes@.last()]) == flatten_node(nodes@.last()));
                assert(flatten_node(nodes@.last()) == flatten_units(all));
                assert(flatten_coalescence(this) == flatten_units(all));
                assert(flat_post_nodes(Seq::<Spanned<Node>>::empty()) == Seq::<Atom>::empty());
                assert(flat_post_nodes(seq![nodes@.last()]) == flatten_post(nodes@.last()));
                assert(flat_post_nodes(nodes@.skip(sub_base)) + Seq::<Atom>::empty()
                    =~= flat_post_nodes(nodes@.skip(sub_base)));
                assert(flatten_post(nodes@.last()) == spec_parse(this));
                assert(nodes@.take(old(nodes)@.len() as int) =~= old(nodes)@);
            }
        },
    }
}

} // verus!
