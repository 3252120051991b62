use vstd::prelude::*;

use crate::context::Context;
use crate::error::Error;
use crate::item::Function;
use crate::span::{Span, Spanned};
use crate::token::{Numeric, Operator};

verus! {

/// The intermediate, precedence-agnostic grouping of tokens: brackets,
/// implicit multiplication, unary minus and explicit grouping markers are
/// resolved, operator precedence is not.
pub enum Coalescence {
    Multiple(Vec<Coalescence>),
    Operator(Spanned<Operator>),
    Terminal(Spanned<Numeric>),
    Variable(Spanned<Vec<u8>>),
    Function(Spanned<Function>),
}

/// A unit that produces a value on its own: a literal, a variable, or a
/// completed group. Operators and prefix functions do not.
pub open spec fn is_valued(c: Coalescence) -> bool {
    match c {
        Coalescence::Multiple(_) => true,
        Coalescence::Terminal(_) => true,
        Coalescence::Variable(_) => true,
        Coalescence::Operator(_) => false,
        Coalescence::Function(_) => false,
    }
}

/// The state machine that shapes a group, read left to right. The state
/// says whether the last unit produced a value. From a non-valued state a
/// prefix function (keeping the state) or a valued unit (setting it) may
/// follow; from a valued state only an operator (clearing it) may. An
/// illegal step has no state at all.
pub open spec fn run_state(s: Seq<Coalescence>, valued: bool) -> Option<bool>
    decreases s.len(),
{
    if s.len() == 0 {
        Some(valued)
    } else {
        match s[0] {
            Coalescence::Operator(_) => if valued {
                run_state(s.drop_first(), false)
            } else {
                None
            },
            Coalescence::Function(_) => if !valued {
                run_state(s.drop_first(), false)
            } else {
                None
            },
            _ => if !valued {
                run_state(s.drop_first(), true)
            } else {
                None
            },
        }
    }
}

/// A legal, complete group: the state machine runs through it from the
/// non-valued state and ends valued, so every operator has a valued
/// neighbour on each side and every prefix function an operand.
pub open spec fn shape_ok(s: Seq<Coalescence>) -> bool {
    run_state(s, false) == Some(true)
}

/// Running the state machine through two sequences in a row is running it
/// through their concatenation.
pub proof fn lemma_run_state_concat(a: Seq<Coalescence>, b: Seq<Coalescence>, valued: bool)
    ensures
        run_state(a + b, valued) == (match run_state(a, valued) {
            Some(middle) => run_state(b, middle),
            None => None,
        }),
    decreases a.len(),
{
    if a.len() == 0 {
        assert(a + b =~= b);
    } else {
        assert((a + b).drop_first() =~= a.drop_first() + b);
        match a[0] {
            Coalescence::Operator(_) => {
                if valued {
                    lemma_run_state_concat(a.drop_first(), b, false);
                }
            },
            Coalescence::Function(_) => {
                if !valued {
                    lemma_run_state_concat(a.drop_first(), b, false);
                }
            },
            _ => {
                if !valued {
                    lemma_run_state_concat(a.drop_first(), b, true);
                }
            },
        }
    }
}

/// Appending one unit steps the state machine once.
pub proof fn lemma_run_state_snoc(s: Seq<Coalescence>, x: Coalescence, valued: bool)
    ensures
        run_state(s.push(x), valued) == (match run_state(s, valued) {
            Some(middle) => (match x {
                Coalescence::Operator(_) => if middle {
                    Some(false)
                } else {
                    None
                },
                Coalescence::Function(_) => if !middle {
                    Some(false)
                } else {
                    None
                },
                _ => if !middle {
                    Some(true)
                } else {
                    None
                },
            }),
            None => None::<bool>,
        }),
{
    assert(s.push(x) =~= s + seq![x]);
    lemma_run_state_concat(s, seq![x], valued);
    assert(seq![x].drop_first() =~= Seq::<Coalescence>::empty());
    assert forall|middle: bool| run_state(seq![x], middle) == (match x {
        Coalescence::Operator(_) => if middle {
            Some(false)
        } else {
            None::<bool>
        },
        Coalescence::Function(_) => if !middle {
            Some(false)
        } else {
            None::<bool>
        },
        _ => if !middle {
            Some(true)
        } else {
            None::<bool>
        },
    }) by {
        reveal_with_fuel(run_state, 2);
        assert(seq![x].drop_first() =~= Seq::<Coalescence>::empty());
        assert(seq![x][0] == x);
    }
}

/// Well-formedness of a coalescence: every group is shaped as `shape_ok`
/// says, at every nesting depth. The coalescer only ever returns
/// well-formed trees, and the parser is total on them.
pub open spec fn wf(c: Coalescence) -> bool
    decreases c,
{
    match c {
        Coalescence::Multiple(units) => shape_ok(units@) && (forall|i: int|
            0 <= i < units@.len() ==> wf(#[trigger] units@[i])),
        _ => true,
    }
}

/// Spec-level byte start: the start of the first unit, at every depth.
pub open spec fn spec_byte_start(c: Coalescence) -> int
    decreases c,
{
    match c {
        Coalescence::Multiple(units) => if units@.len() > 0 {
            spec_byte_start(units@[0])
        } else {
            0
        },
        Coalescence::Operator(operator) => operator.span.0 as int,
        Coalescence::Terminal(terminal) => terminal.span.0 as int,
        Coalescence::Variable(variable) => variable.span.0 as int,
        Coalescence::Function(function) => function.span.0 as int,
    }
}

/// Spec-level byte end: the end of the last unit, at every depth.
pub open spec fn spec_byte_end(c: Coalescence) -> int
    decreases c,
{
    match c {
        Coalescence::Multiple(units) => if units@.len() > 0 {
            spec_byte_end(units@[units@.len() - 1])
        } else {
            0
        },
        Coalescence::Operator(operator) => operator.span.1 as int,
        Coalescence::Terminal(terminal) => terminal.span.1 as int,
        Coalescence::Variable(variable) => variable.span.1 as int,
        Coalescence::Function(function) => function.span.1 as int,
    }
}

/// The anchors of a sequence of units: the byte start of every unit that
/// is not an operator, in order.
pub open spec fn anchor_seq(s: Seq<Coalescence>) -> Seq<usize>
    decreases s.len(),
{
    if s.len() == 0 {
        Seq::empty()
    } else {
        anchor_seq(s.drop_last()) + (match s.last() {
            Coalescence::Operator(_) => Seq::<usize>::empty(),
            _ => seq![(spec_byte_start(s.last()) as usize)],
        })
    }
}

/// Appending a unit appends its anchor, unless it is an operator.
pub proof fn lemma_anchor_seq_push(s: Seq<Coalescence>, x: Coalescence)
    ensures
        anchor_seq(s.push(x)) == anchor_seq(s) + (match x {
            Coalescence::Operator(_) => Seq::<usize>::empty(),
            _ => seq![(spec_byte_start(x) as usize)],
        }),
{
    assert(s.push(x).drop_last() =~= s);
    assert(s.push(x).last() == x);
}

pub proof fn lemma_anchor_seq_concat(a: Seq<Coalescence>, b: Seq<Coalescence>)
    ensures
        anchor_seq(a + b) == anchor_seq(a) + anchor_seq(b),
    decreases b.len(),
{
    if b.len() == 0 {
        assert(a + b =~= a);
        assert(anchor_seq(b) == Seq::<usize>::empty());
        assert(anchor_seq(a) + Seq::<usize>::empty() =~= anchor_seq(a));
    } else {
        lemma_anchor_seq_concat(a, b.drop_last());
        assert((a + b).drop_last() =~= a + b.drop_last());
        assert((a + b).last() == b.last());
        assert(b.drop_last().push(b.last()) =~= b);
        lemma_anchor_seq_push(a + b.drop_last(), b.last());
        assert((a + b.drop_last()).push(b.last()) =~= a + b);
        lemma_anchor_seq_push(b.drop_last(), b.last());
        let tail = match b.last() {
            Coalescence::Operator(_) => Seq::<usize>::empty(),
            _ => seq![(spec_byte_start(b.last()) as usize)],
        };
        assert((anchor_seq(a) + anchor_seq(b.drop_last())) + tail =~= anchor_seq(a) + (anchor_seq(
            b.drop_last(),
        ) + tail));
    }
}

/// A sequence has exactly one anchor per non-operator unit.
pub proof fn lemma_anchor_seq_len(s: Seq<Coalescence>)
    ensures
        anchor_seq(s).len() == crate::coalesce::unit_count(s),
    decreases s.len(),
{
    if s.len() > 0 {
        lemma_anchor_seq_len(s.drop_last());
    }
}

/// The first anchor of a sequence whose first unit is no operator is that
/// unit's byte start.
pub proof fn lemma_anchor_seq_first(s: Seq<Coalescence>)
    requires
        s.len() > 0,
        !(s[0] is Operator),
    ensures
        anchor_seq(s).len() > 0,
        anchor_seq(s)[0] == spec_byte_start(s[0]) as usize,
    decreases s.len(),
{
    if s.len() == 1 {
        assert(s.drop_last().len() == 0);
        assert(anchor_seq(s.drop_last()) == Seq::<usize>::empty());
    } else {
        assert(s.drop_last()[0] == s[0]);
        lemma_anchor_seq_first(s.drop_last());
    }
}

/// The anchors of a whole coalescence: one byte offset per top-level unit
/// that produces a value or awaits an operand.
pub open spec fn spec_anchors(c: Coalescence) -> Seq<usize> {
    match c {
        Coalescence::Multiple(units) => anchor_seq(units@),
        Coalescence::Operator(_) => Seq::empty(),
        _ => seq![(spec_byte_start(c) as usize)],
    }
}

/// Every span in a coalescence lies within `limit` bytes and is ordered.
pub open spec fn spans_bounded(c: Coalescence, limit: int) -> bool
    decreases c,
{
    match c {
        Coalescence::Multiple(units) => forall|i: int|
            0 <= i < units@.len() ==> spans_bounded(#[trigger] units@[i], limit),
        Coalescence::Operator(operator) => operator.span.0 <= operator.span.1 <= limit,
        Coalescence::Terminal(terminal) => terminal.span.0 <= terminal.span.1 <= limit,
        Coalescence::Variable(variable) => variable.span.0 <= variable.span.1 <= limit,
        Coalescence::Function(function) => function.span.0 <= function.span.1 <= limit,
    }
}

/// A well-formed, span-bounded unit starts within the text it came from.
pub proof fn lemma_byte_start_bounded(c: Coalescence, limit: int)
    requires
        wf(c),
        spans_bounded(c, limit),
    ensures
        0 <= spec_byte_start(c) <= limit,
    decreases c,
{
    match c {
        Coalescence::Multiple(units) => {
            assert(units@.len() > 0);
            assert(wf(units@[0]));
            assert(spans_bounded(units@[0], limit));
            lemma_byte_start_bounded(units@[0], limit);
        },
        _ => {},
    }
}

/// Every anchor of a sequence of well-formed, span-bounded units lies
/// within the text.
pub proof fn lemma_anchor_seq_bounded(s: Seq<Coalescence>, limit: int)
    requires
        0 <= limit <= usize::MAX,
        forall|i: int| 0 <= i < s.len() ==> wf(#[trigger] s[i]),
        forall|i: int| 0 <= i < s.len() ==> spans_bounded(#[trigger] s[i], limit),
    ensures
        forall|k: int| 0 <= k < anchor_seq(s).len() ==> #[trigger] anchor_seq(s)[k] <= limit,
    decreases s.len(),
{
    if s.len() > 0 {
        let head = s.drop_last();
        assert(forall|i: int| 0 <= i < head.len() ==> wf(#[trigger] head[i]));
        assert(forall|i: int| 0 <= i < head.len() ==> spans_bounded(#[trigger] head[i], limit));
        lemma_anchor_seq_bounded(head, limit);
        assert(s.last() == s[s.len() - 1]);
        if !(s.last() is Operator) {
            lemma_byte_start_bounded(s.last(), limit);
        }
        assert forall|k: int| 0 <= k < anchor_seq(s).len() implies #[trigger] anchor_seq(s)[k]
            <= limit by {
            if k < anchor_seq(head).len() {
                assert(anchor_seq(s)[k] == anchor_seq(head)[k]);
            } else {
                assert(!(s.last() is Operator));
                assert(anchor_seq(s)[k] == spec_byte_start(s.last()) as usize);
            }
        }
    }
}

impl Coalescence {
    /// Checks that every variable the expression mentions resolves in the
    /// given context, reporting the first one that does not at its span.
    pub fn verify(&self, context: &Context) -> (r: Result<(), Spanned<Error>>)
        requires
            context.wf(),
        ensures
            match r {
                Ok(()) => first_unresolved(*self, *context) is None,
                Err(e) => match first_unresolved(*self, *context) {
                    Some((span, name)) => e.span == span && crate::context::variable_error_is(
                        *context,
                        name,
                        e.node,
                    ),
                    None => false,
                },
            },
        decreases *self,
    {
        match self {
            Coalescence::Multiple(units) => {
                let mut index: usize = 0;
                proof {
                    assert(units@.skip(0) =~= units@);
                }
                while index < units.len()
                    invariant
                        context.wf(),
                        index <= units@.len(),
                        *self == Coalescence::Multiple(*units),
                        first_unresolved_in(units@, *context) == first_unresolved_in(
                            units@.skip(index as int),
                            *context,
                        ),
                    decreases units@.len() - index,
                {
                    proof {
                        assert(units@.skip(index as int).drop_first() =~= units@.skip(
                            index as int + 1,
                        ));
                        assert(units@.skip(index as int)[0] == units@[index as int]);
                        assert(decreases_to!(*self => units@[index as int]));
                    }
                    let unit = &units[index];
                    let checked = unit.verify(context);
                    if let Err(error) = checked {
                        return Err(error);
                    }
                    index += 1;
                }
                Ok(())
            },
            Coalescence::Variable(variable) => {
                match context.variable(variable.node.as_slice()) {
                    Ok(_) => Ok(()),
                    Err(error) => Err(Spanned::new(error, variable.span)),
                }
            },
            _ => Ok(()),
        }
    }

    /// Byte offsets to mark under the expression while it is being typed:
    /// one per top-level unit that is not an operator.
    pub fn coalesce_anchors(&self) -> (anchors: Vec<usize>)
        requires
            wf(*self),
        ensures
            anchors@ == spec_anchors(*self),
    {
        match self {
            Coalescence::Multiple(units) => {
                let mut anchors: Vec<usize> = Vec::new();
                let mut index: usize = 0;
                while index < units.len()
                    invariant
                        wf(*self),
                        self is Multiple,
                        (self matches Coalescence::Multiple(u) ==> u@ == units@),
                        index <= units@.len(),
                        anchors@ == anchor_seq(units@.take(index as int)),
                    decreases units@.len() - index,
                {
                    proof {
                        assert(units@.take(index as int + 1).drop_last() =~= units@.take(
                            index as int,
                        ));
                        assert(wf(units@[index as int]));
                    }
                    let unit = &units[index];
                    match unit {
                        Coalescence::Operator(_) => {},
                        _ => {
                            let start = unit.byte_start();
                            anchors.push(start);
                        },
                    }
                    index += 1;
                }
                proof {
                    assert(units@.take(units@.len() as int) =~= units@);
                }
                anchors
            },
            Coalescence::Operator(_) => Vec::new(),
            _ => {
                let mut anchors: Vec<usize> = Vec::new();
                let start = self.byte_start();
                anchors.push(start);
                anchors
            },
        }
    }

    /// The byte at which this unit starts in the input.
    pub fn byte_start(&self) -> (start: usize)
        requires
            wf(*self),
        ensures
            start == spec_byte_start(*self),
        decreases *self,
    {
        match self {
            Coalescence::Multiple(units) => {
                proof {
                    assert(units@.len() > 0);
                    assert(wf(units@[0]));
                }
                units[0].byte_start()
            },
            Coalescence::Operator(operator) => operator.span.byte_start(),
            Coalescence::Terminal(terminal) => terminal.span.byte_start(),
            Coalescence::Variable(variable) => variable.span.byte_start(),
            Coalescence::Function(function) => function.span.byte_start(),
        }
    }

    /// The byte just past the end of this unit in the input.
    pub fn byte_end(&self) -> (end: usize)
        requires
            wf(*self),
        ensures
            end == spec_byte_end(*self),
        decreases *self,
    {
        match self {
            Coalescence::Multiple(units) => {
                proof {
                    assert(units@.len() > 0);
                    assert(wf(units@[units@.len() - 1]));
                }
                units[units.len() - 1].byte_end()
            },
            Coalescence::Operator(operator) => operator.span.byte_end(),
            Coalescence::Terminal(terminal) => terminal.span.byte_end(),
            Coalescence::Variable(variable) => variable.span.byte_end(),
            Coalescence::Function(function) => function.span.byte_end(),
        }
    }
}

/// The first variable in a sequence of units that does not resolve in the
/// context: its span and its name, if any.
pub open spec fn first_unresolved_in(s: Seq<Coalescence>, context: Context) -> Option<
    (Span, Seq<u8>),
>
    decreases s,
{
    if s.len() == 0 {
        None
    } else {
        match first_unresolved(s[0], context) {
            Some(unresolved) => Some(unresolved),
            None => first_unresolved_in(s.drop_first(), context),
        }
    }
}

/// The first variable in a coalescence that does not resolve in the
/// context: its span and its name, if any.
pub open spec fn first_unresolved(c: Coalescence, context: Context) -> Option<(Span, Seq<u8>)>
    decreases c,
{
    match c {
        Coalescence::Multiple(units) => first_unresolved_in(units@, context),
        Coalescence::Variable(variable) => if crate::context::variable_ok(
            context,
            variable.node@,
        ) {
            None
        } else {
            Some((variable.span, variable.node@))
        },
        _ => None,
    }
}

} // verus!
