use vstd::prelude::*;

use crate::coalescence::{
    is_valued, lemma_run_state_snoc, run_state, spans_bounded, spec_byte_start, wf, Coalescence,
};
use crate::error::Error;
use crate::item::{AngleUnit, Function};
use crate::lexer::Lexer;
use crate::span::{Span, Spanned};
use crate::token::{Numeric, Operator, Token};

verus! {

// --- The grouping marker ----------------------------------------------------

/// How many units of a sequence produce a value or await an operand:
/// everything but the operators.
pub open spec fn unit_count(s: Seq<Coalescence>) -> int
    decreases s.len(),
{
    if s.len() == 0 {
        0
    } else {
        unit_count(s.drop_last()) + (if s.last() is Operator {
            0int
        } else {
            1int
        })
    }
}

/// Where a grouping marker's splice begins: scanning from the most recent
/// unit backward, operators ride along untouched and every other unit
/// counts toward the target; the index where the target is reached, or a
/// negative marker when the units run out first.
pub open spec fn splice_index(s: Seq<Coalescence>, target: int) -> int
    decreases s.len(),
{
    if s.len() == 0 {
        -1
    } else if s.last() is Operator {
        splice_index(s.drop_last(), target)
    } else if target <= 1 {
        s.len() - 1
    } else {
        splice_index(s.drop_last(), target - 1)
    }
}

/// A sequence never holds a negative number of units.
pub proof fn lemma_unit_count_nonneg(s: Seq<Coalescence>)
    ensures
        unit_count(s) >= 0,
    decreases s.len(),
{
    if s.len() > 0 {
        lemma_unit_count_nonneg(s.drop_last());
    }
}

/// The scan runs out of units exactly when the target exceeds the number
/// of units available; otherwise it lands on a unit that is not an
/// operator.
pub proof fn lemma_splice_index(s: Seq<Coalescence>, target: int)
    requires
        target >= 1,
    ensures
        (splice_index(s, target) == -1) <==> (target > unit_count(s)),
        splice_index(s, target) != -1 ==> 0 <= splice_index(s, target) < s.len() && !(s[splice_index(
            s,
            target,
        )] is Operator),
        splice_index(s, target) != -1 ==> unit_count(s.skip(splice_index(s, target))) == target,
    decreases s.len(),
{
    if s.len() > 0 {
        let j = splice_index(s, target);
        if s.last() is Operator {
            lemma_splice_index(s.drop_last(), target);
            if j != -1 {
                assert(s.skip(j) =~= s.drop_last().skip(j).push(s.last()));
                assert(s.skip(j).drop_last() =~= s.drop_last().skip(j));
                assert(s.skip(j).last() == s.last());
                assert(unit_count(s.skip(j)) == unit_count(s.drop_last().skip(j)));
            }
        } else if target <= 1 {
            lemma_unit_count_nonneg(s.drop_last());
            assert(s.skip(j) =~= seq![s.last()]);
            assert(seq![s.last()].drop_last() =~= Seq::<Coalescence>::empty());
            assert(unit_count(Seq::<Coalescence>::empty()) == 0);
            assert(unit_count(seq![s.last()]) == 1);
        } else {
            lemma_splice_index(s.drop_last(), target - 1);
            if j != -1 {
                assert(s.skip(j) =~= s.drop_last().skip(j).push(s.last()));
                assert(s.skip(j).drop_last() =~= s.drop_last().skip(j));
                assert(s.skip(j).last() == s.last());
                assert(unit_count(s.skip(j)) == unit_count(s.drop_last().skip(j)) + 1);
            }
        }
    }
}

/// Appending one unit raises the unit count exactly when it is no operator.
pub proof fn lemma_unit_count_push(s: Seq<Coalescence>, x: Coalescence)
    ensures
        unit_count(s.push(x)) == unit_count(s) + (if x is Operator {
            0int
        } else {
            1int
        }),
{
    assert(s.push(x).drop_last() =~= s);
    assert(s.push(x).last() == x);
}

pub proof fn lemma_unit_count_concat(a: Seq<Coalescence>, b: Seq<Coalescence>)
    ensures
        unit_count(a + b) == unit_count(a) + unit_count(b),
    decreases b.len(),
{
    if b.len() == 0 {
        assert(a + b =~= a);
    } else {
        assert((a + b).drop_last() =~= a + b.drop_last());
        assert((a + b).last() == b.last());
        lemma_unit_count_concat(a, b.drop_last());
    }
}

/// Resolves one grouping marker over the units accumulated at the current
/// nesting level. A marker whose token held `count` repeats bundles the
/// trailing `count + 1` non-operator units, with the operators between
/// them, into one nested group. It fails with `InvalidCoalesce` exactly
/// when fewer units are available, and with `ExpectedValued` when the
/// unit it follows is not complete (a dangling operator or prefix
/// function, or nothing at all).
pub fn coalesce_marker(
    coalesces: &mut Vec<Coalescence>,
    count: usize,
    last_valued: bool,
    span: Span,
) -> (r: Result<(), Spanned<Error>>)
    requires
        count + 1 <= usize::MAX,
        run_state(old(coalesces)@, false) == Some(last_valued),
        forall|i: int| 0 <= i < old(coalesces)@.len() ==> wf(#[trigger] old(coalesces)@[i]),
    ensures
        match r {
            Ok(()) => {
                &&& last_valued
                &&& count + 1 <= unit_count(old(coalesces)@)
                &&& ({
                    let j = splice_index(old(coalesces)@, count + 1);
                    &&& 0 <= j < old(coalesces)@.len()
                    &&& final(coalesces)@.len() == j + 1
                    &&& (forall|k: int| 0 <= k < j ==> final(coalesces)@[k] == old(coalesces)@[k])
                    &&& (final(coalesces)@[j] matches Coalescence::Multiple(tail) && tail@ == old(
                        coalesces,
                    )@.skip(j))
                })
                &&& run_state(final(coalesces)@, false) == Some(true)
                &&& (forall|i: int|
                    0 <= i < final(coalesces)@.len() ==> wf(#[trigger] final(coalesces)@[i]))
            },
            Err(e) => {
                &&& final(coalesces)@ == old(coalesces)@
                &&& if count + 1 > unit_count(old(coalesces)@) {
                    e == (Spanned { node: Error::InvalidCoalesce, span })
                } else {
                    !last_valued && e == (Spanned { node: Error::ExpectedValued, span })
                }
            },
        },
{
    let ghost initial = coalesces@;
    let ghost target = count as int + 1;
    let mut index = coalesces.len();
    let mut remaining = count + 1;
    let mut found = false;
    let mut splice_at: usize = 0;
    proof {
        assert(initial.take(coalesces@.len() as int) =~= initial);
    }
    while index > 0 && !found
        invariant
            index <= coalesces@.len(),
            coalesces@ == initial,
            remaining >= 1,
            target == count + 1,
            !found ==> splice_index(initial, target) == splice_index(
                initial.take(index as int),
                remaining as int,
            ),
            found ==> splice_index(initial, target) == splice_at && splice_at < initial.len(),
        decreases index,
    {
        proof {
            assert(initial.take(index as int).drop_last() =~= initial.take(index as int - 1));
            assert(initial.take(index as int).last() == initial[index as int - 1]);
        }
        index -= 1;
        match &coalesces[index] {
            Coalescence::Operator(_) => {},
            _ => {
                if remaining == 1 {
                    found = true;
                    splice_at = index;
                } else {
                    remaining -= 1;
                }
            },
        }
    }
    if !found {
        proof {
            assert(initial.take(0) =~= Seq::<Coalescence>::empty());
            lemma_splice_index(initial, target);
        }
        return Err(Spanned::new(Error::InvalidCoalesce, span));
    }
    proof {
        lemma_splice_index(initial, target);
    }
    if !last_valued {
        return Err(Spanned::new(Error::ExpectedValued, span));
    }
    let ghost j = splice_at as int;
    let coalescence = coalesces.split_off(splice_at);
    proof {
        assert(initial =~= initial.subrange(0, j) + initial.subrange(j, initial.len() as int));
        crate::coalescence::lemma_run_state_concat(
            initial.subrange(0, j),
            initial.subrange(j, initial.len() as int),
            false,
        );
        assert(initial.subrange(j, initial.len() as int)[0] == initial[j]);
        assert(run_state(initial.subrange(0, j), false) == Some(false));
        assert(initial.skip(j) =~= initial.subrange(j, initial.len() as int));
    }
    coalesces.push(Coalescence::Multiple(coalescence));
    proof {
        lemma_run_state_snoc(initial.subrange(0, j), Coalescence::Multiple(coalescence), false);
        assert(forall|k: int|
            0 <= k < j ==> final(coalesces)@[k] == #[trigger] initial.subrange(0, j)[k]);
    }
    Ok(())
}

// --- When grouping succeeds, and with which failure it does not ---------------
// A second, declarative reading of the grouping pass: what kind of token
// stands at a position, and how one level of grouping walks the text. The
// coalescer's contract holds its result to this reading, so it says not
// only what shape a successful grouping has but exactly on which inputs
// grouping succeeds and which error it gives when it does not.

/// What the token starting at a position means to the grouping pass.
pub enum TokenStep {
    /// A lexical failure: the level aborts with this error.
    Bad(Spanned<Error>),
    /// A unit that produces a value — a numeric literal, a variable or a
    /// constant — ending at `end` and reading as `atom`.
    Valued { end: int, atom: crate::parse::Atom },
    /// A prefix function name (with any angle-unit suffix).
    Prefix { end: int, function: Function },
    /// The minus operator, which may also act as a unary prefix.
    Minus { end: int },
    /// Any other binary operator.
    Operator { end: int, operator: Operator },
    Open { end: int },
    Close { end: int },
    /// A grouping-marker run asking for `target` trailing units.
    Marker { end: int, target: int },
}

/// The implicit multiplication inserted before a value that directly
/// follows a finished group, one byte wide at the value's start.
pub open spec fn implicit_multiply(start: int) -> crate::parse::Atom {
    crate::parse::Atom::Operator(
        Spanned { node: Operator::Multiply, span: Span(start as usize, (start + 1) as usize) },
    )
}

#[verifier::opaque]
pub open spec fn token_step(text: Seq<u8>, start: int) -> TokenStep {
    let b = text[start];
    if crate::lexer::is_digit(b) {
        let prefixed = b == 0x30u8 && start + 1 < text.len() && (text[start + 1] == 0x78u8
            || text[start + 1] == 0x6fu8 || text[start + 1] == 0x62u8);
        if prefixed {
            let radix: int = if text[start + 1] == 0x78u8 {
                16
            } else if text[start + 1] == 0x6fu8 {
                8
            } else {
                2
            };
            let nstart: int = if start + 2 < text.len() {
                start + 2
            } else {
                text.len() as int
            };
            let scan: int = if start + 2 < text.len() {
                start + 3
            } else {
                text.len() as int
            };
            let end = crate::lexer::number_end(text, scan, false);
            if let Some(v) = crate::lexer::radix_value(text.subrange(nstart, end), radix) {
                TokenStep::Valued {
                    end,
                    atom: crate::parse::Atom::Terminal(
                        Spanned {
                            node: Numeric::Integer(v),
                            span: Span(start as usize, end as usize),
                        },
                    ),
                }
            } else {
                TokenStep::Bad(
                    Spanned {
                        node: Error::InvalidTerminal,
                        span: Span(start as usize, end as usize),
                    },
                )
            }
        } else {
            let end = crate::lexer::number_end(text, start + 1, false);
            if crate::lexer::decimal_ok(text.subrange(start, end)) {
                TokenStep::Valued {
                    end,
                    atom: crate::parse::Atom::Terminal(
                        Spanned { node: Numeric::Decimal, span: Span(start as usize, end as usize) },
                    ),
                }
            } else {
                TokenStep::Bad(
                    Spanned {
                        node: Error::InvalidTerminal,
                        span: Span(start as usize, end as usize),
                    },
                )
            }
        }
    } else if b == 0x3bu8 {
        let end = crate::lexer::run_end(text, start + 1);
        TokenStep::Marker { end, target: end - start + 1 }
    } else if b == 0x24u8 {
        let end = crate::lexer::identifier_end(text, start + 1);
        TokenStep::Valued {
            end,
            atom: crate::parse::Atom::Variable(
                Span(start as usize, end as usize),
                text.subrange(start + 1, end),
            ),
        }
    } else if !crate::lexer::is_punctuation(b) {
        let iend = crate::lexer::identifier_end(text, start + 1);
        match crate::lexer::keyword_token(text.subrange(start, iend)) {
            None => TokenStep::Bad(
                Spanned { node: Error::InvalidItem, span: Span(start as usize, iend as usize) },
            ),
            Some(token) => match token {
                Token::Function(f) => match f {
                    Function::Trigonometric(t, _) => if iend < text.len() && text[iend]
                        == 0x27u8 {
                        TokenStep::Prefix {
                            end: iend + 1,
                            function: Function::Trigonometric(t, AngleUnit::Degrees),
                        }
                    } else {
                        TokenStep::Prefix { end: iend, function: f }
                    },
                    _ => TokenStep::Prefix { end: iend, function: f },
                },
                Token::Constant(c) => TokenStep::Valued {
                    end: iend,
                    atom: crate::parse::Atom::Terminal(
                        Spanned {
                            node: Numeric::Bits(c.spec_value()),
                            span: Span(start as usize, iend as usize),
                        },
                    ),
                },
                _ => TokenStep::Bad(
                    Spanned {
                        node: Error::InvalidItem,
                        span: Span(start as usize, iend as usize),
                    },
                ),
            },
        }
    } else if b == 0x28u8 {
        TokenStep::Open { end: start + 1 }
    } else if b == 0x29u8 {
        TokenStep::Close { end: start + 1 }
    } else if b == 0x2du8 {
        TokenStep::Minus { end: start + 1 }
    } else if b == 0x2bu8 {
        TokenStep::Operator { end: start + 1, operator: Operator::Add }
    } else if b == 0x2au8 {
        TokenStep::Operator { end: start + 1, operator: Operator::Multiply }
    } else if b == 0x2fu8 {
        TokenStep::Operator { end: start + 1, operator: Operator::Divide }
    } else if b == 0x25u8 {
        TokenStep::Operator { end: start + 1, operator: Operator::Modulo }
    } else if b == 0x5eu8 {
        TokenStep::Operator { end: start + 1, operator: Operator::Power }
    } else {
        TokenStep::Bad(
            Spanned {
                node: Error::InvalidCharacter(b as char),
                span: Span(start as usize, (start + 1) as usize),
            },
        )
    }
}

/// How one level of grouping walks the text from `pos`: the first failure
/// it meets (if any), the position after the level ends, the units the
/// level reads — in source order, with implicit multiplications and unary
/// minuses made explicit and constants replaced by their values — and the
/// level's anchors: the byte start of each of its non-operator units, with
/// `anchors` carrying the ones accumulated so far (a grouping marker
/// replaces the anchors of the units it bundles by the group's own, and a
/// bracketed group is anchored at its first inner unit). The walking state
/// is whether the last unit produced a value, whether that unit was a
/// finished group, how many non-operator units the level holds, and the
/// end of the last consumed token (for the spans of end-of-input errors).
/// Grouping changes only the nesting, never the reading.
#[verifier::opaque]
pub open spec fn spec_level(
    text: Seq<u8>,
    pos: int,
    valued: bool,
    expect: bool,
    last_multiple: bool,
    units: int,
    last_end: int,
    anchors: Seq<usize>,
) -> (Option<Spanned<Error>>, int, Seq<crate::parse::Atom>, Seq<usize>)
    decreases text.len() - pos,
{
    let start = crate::lexer::skip_end(text, pos);
    let nothing = Seq::<crate::parse::Atom>::empty();
    if !(pos <= start <= text.len()) {
        (None, text.len() as int, nothing, anchors)
    } else if start == text.len() {
        if !valued {
            (
                Some(
                    Spanned {
                        node: Error::ExpectedValued,
                        span: Span(last_end as usize, (last_end + 1) as usize),
                    },
                ),
                start,
                nothing,
                anchors,
            )
        } else if expect {
            (
                Some(
                    Spanned {
                        node: Error::MismatchedBracket,
                        span: Span(last_end as usize, (last_end + 1) as usize),
                    },
                ),
                start,
                nothing,
                anchors,
            )
        } else {
            (None, start, nothing, anchors)
        }
    } else {
        match token_step(text, start) {
            TokenStep::Bad(e) => (Some(e), start, nothing, anchors),
            TokenStep::Valued { end, atom } => {
                if valued && !last_multiple {
                    (
                        Some(
                            Spanned {
                                node: Error::ExpectedOperator,
                                span: Span(start as usize, end as usize),
                            },
                        ),
                        start,
                        nothing,
                        anchors,
                    )
                } else if end > pos && end <= text.len() {
                    let next = spec_level(
                        text,
                        end,
                        true,
                        expect,
                        false,
                        units + 1,
                        end,
                        anchors.push(start as usize),
                    );
                    let read = if valued {
                        seq![implicit_multiply(start), atom]
                    } else {
                        seq![atom]
                    };
                    (next.0, next.1, read + next.2, next.3)
                } else {
                    (None, text.len() as int, nothing, anchors)
                }
            },
            TokenStep::Prefix { end, function } => {
                if valued {
                    (
                        Some(
                            Spanned {
                                node: Error::ExpectedOperator,
                                span: Span(start as usize, end as usize),
                            },
                        ),
                        start,
                        nothing,
                        anchors,
                    )
                } else if end > pos && end <= text.len() {
                    let next = spec_level(
                        text,
                        end,
                        false,
                        expect,
                        false,
                        units + 1,
                        end,
                        anchors.push(start as usize),
                    );
                    (
                        next.0,
                        next.1,
                        seq![crate::parse::Atom::Function(function, start as usize)] + next.2,
                        next.3,
                    )
                } else {
                    (None, text.len() as int, nothing, anchors)
                }
            },
            TokenStep::Minus { end } => {
                if end > pos && end <= text.len() {
                    if valued {
                        let next = spec_level(text, end, false, expect, false, units, end, anchors);
                        (
                            next.0,
                            next.1,
                            seq![
                                crate::parse::Atom::Operator(
                                    Spanned {
                                        node: Operator::Minus,
                                        span: Span(start as usize, end as usize),
                                    },
                                ),
                            ] + next.2,
                            next.3,
                        )
                    } else {
                        let next = spec_level(
                            text,
                            end,
                            false,
                            expect,
                            false,
                            units + 1,
                            end,
                            anchors.push(start as usize),
                        );
                        (
                            next.0,
                            next.1,
                            seq![
                                crate::parse::Atom::Function(Function::UnaryMinus, start as usize),
                            ] + next.2,
                            next.3,
                        )
                    }
                } else {
                    (None, text.len() as int, nothing, anchors)
                }
            },
            TokenStep::Operator { end, operator } => {
                if !valued {
                    (
                        Some(
                            Spanned {
                                node: Error::ExpectedValued,
                                span: Span(start as usize, end as usize),
                            },
                        ),
                        start,
                        nothing,
                        anchors,
                    )
                } else if end > pos && end <= text.len() {
                    let next = spec_level(text, end, false, expect, false, units, end, anchors);
                    (
                        next.0,
                        next.1,
                        seq![
                            crate::parse::Atom::Operator(
                                Spanned {
                                    node: operator,
                                    span: Span(start as usize, end as usize),
                                },
                            ),
                        ] + next.2,
                        next.3,
                    )
                } else {
                    (None, text.len() as int, nothing, anchors)
                }
            },
            TokenStep::Open { end } => {
                let inner = if end > pos && end <= text.len() {
                    spec_level(text, end, false, true, false, 0, 0, Seq::empty())
                } else {
                    (None, text.len() as int, nothing, Seq::empty())
                };
                match inner.0 {
                    Some(e) => (Some(e), start, nothing, anchors),
                    None => if inner.1 > pos && inner.1 <= text.len() {
                        let group_anchors = if inner.3.len() > 0 {
                            anchors.push(inner.3[0])
                        } else {
                            anchors
                        };
                        let next = spec_level(
                            text,
                            inner.1,
                            true,
                            expect,
                            true,
                            units + 1,
                            end,
                            group_anchors,
                        );
                        let read = if valued {
                            seq![implicit_multiply(start)] + inner.2
                        } else {
                            inner.2
                        };
                        (next.0, next.1, read + next.2, next.3)
                    } else {
                        (None, text.len() as int, nothing, anchors)
                    },
                }
            },
            TokenStep::Close { end } => {
                if !expect {
                    (
                        Some(
                            Spanned {
                                node: Error::MismatchedBracket,
                                span: Span(start as usize, end as usize),
                            },
                        ),
                        end,
                        nothing,
                        anchors,
                    )
                } else if units == 0 {
                    (
                        Some(
                            Spanned {
                                node: Error::EmptyBrackets,
                                span: Span(start as usize, end as usize),
                            },
                        ),
                        end,
                        nothing,
                        anchors,
                    )
                } else if !valued {
                    (
                        Some(
                            Spanned {
                                node: Error::ExpectedValued,
                                span: Span(end as usize, (end + 1) as usize),
                            },
                        ),
                        end,
                        nothing,
                        anchors,
                    )
                } else {
                    (None, end, nothing, anchors)
                }
            },
            TokenStep::Marker { end, target } => {
                if target > units {
                    (
                        Some(
                            Spanned {
                                node: Error::InvalidCoalesce,
                                span: Span(start as usize, end as usize),
                            },
                        ),
                        start,
                        nothing,
                        anchors,
                    )
                } else if !valued {
                    (
                        Some(
                            Spanned {
                                node: Error::ExpectedValued,
                                span: Span(start as usize, end as usize),
                            },
                        ),
                        start,
                        nothing,
                        anchors,
                    )
                } else if end > pos && end <= text.len() {
                    spec_level(
                        text,
                        end,
                        true,
                        expect,
                        true,
                        units - target + 1,
                        end,
                        anchors.take(anchors.len() - (target - 1)),
                    )
                } else {
                    (None, text.len() as int, nothing, anchors)
                }
            },
        }
    }
}

/// Reading a level in two stages reads the same atoms.
proof fn lemma_reattach(
    base: Seq<crate::parse::Atom>,
    read: Seq<crate::parse::Atom>,
    rest: Seq<crate::parse::Atom>,
)
    ensures
        base + (read + rest) == (base + read) + rest,
{
    assert(base + (read + rest) =~= (base + read) + rest);
}

// --- Accumulating one valued unit -------------------------------------------

/// Pushes a unit that produces a value. Right after another completed
/// value this is only legal when that value is a finished group, in which
/// case an implicit multiplication is inserted (so `2(3)` and `(2)3`
/// multiply); a bare value directly after a bare value is an error.
fn value(
    coalesces: &mut Vec<Coalescence>,
    last_valued: &mut bool,
    unit: Coalescence,
    span: Span,
) -> (r: Result<(), Spanned<Error>>)
    requires
        run_state(old(coalesces)@, false) == Some(*old(last_valued)),
        is_valued(unit),
        wf(unit),
        spec_byte_start(unit) + 1 <= usize::MAX,
    ensures
        *final(last_valued) == true,
        match r {
            Ok(()) => {
                &&& run_state(final(coalesces)@, false) == Some(true)
                &&& if *old(last_valued) {
                    &&& old(coalesces)@.len() > 0
                    &&& old(coalesces)@.last() is Multiple
                    &&& final(coalesces)@ == old(coalesces)@.push(
                        Coalescence::Operator(
                            Spanned {
                                node: Operator::Multiply,
                                span: Span(
                                    spec_byte_start(unit) as usize,
                                    (spec_byte_start(unit) + 1) as usize,
                                ),
                            },
                        ),
                    ).push(unit)
                } else {
                    final(coalesces)@ == old(coalesces)@.push(unit)
                }
            },
            Err(e) => {
                &&& *old(last_valued)
                &&& !(old(coalesces)@.len() > 0 && old(coalesces)@.last() is Multiple)
                &&& e == (Spanned { node: Error::ExpectedOperator, span })
                &&& final(coalesces)@ == old(coalesces)@
            },
        },
{
    if *last_valued {
        let insert_multiply = match coalesces.last() {
            Some(Coalescence::Multiple(_)) => true,
            _ => false,
        };
        if !insert_multiply {
            return Err(Spanned::new(Error::ExpectedOperator, span));
        }
        let byte_start = unit.byte_start();
        let operator = Spanned::new(Operator::Multiply, Span(byte_start, byte_start + 1));
        proof {
            lemma_run_state_snoc(coalesces@, Coalescence::Operator(operator), false);
        }
        coalesces.push(Coalescence::Operator(operator));
    }
    proof {
        lemma_run_state_snoc(coalesces@, unit, false);
    }
    *last_valued = true;
    coalesces.push(unit);
    Ok(())
}

// --- The coalescer -----------------------------------------------------------

/// Groups the whole token stream of a reader into one coalescence.
pub fn coalesce_root(lexer: &mut Lexer<'_>) -> (r: Result<Coalescence, Spanned<Error>>)
    requires
        old(lexer).wf(),
        old(lexer).text_view().len() < usize::MAX,
    ensures
        final(lexer).wf(),
        final(lexer).text_view() == old(lexer).text_view(),
        old(lexer).pos() <= final(lexer).pos(),
        match r {
            Ok(c) => {
                &&& (c matches Coalescence::Multiple(_))
                &&& wf(c)
                &&& spans_bounded(c, old(lexer).text_view().len() as int)
                &&& spec_level(
                    old(lexer).text_view(),
                    old(lexer).pos(),
                    false,
                    false,
                    false,
                    0,
                    0,
                    Seq::empty(),
                ).0 is None
                &&& spec_level(
                    old(lexer).text_view(),
                    old(lexer).pos(),
                    false,
                    false,
                    false,
                    0,
                    0,
                    Seq::empty(),
                ).2 == crate::parse::flatten_coalescence(c)
                &&& spec_level(
                    old(lexer).text_view(),
                    old(lexer).pos(),
                    false,
                    false,
                    false,
                    0,
                    0,
                    Seq::empty(),
                ).3 == crate::coalescence::spec_anchors(c)
            },
            Err(e) => e.span.0 <= e.span.1 <= old(lexer).text_view().len() + 1 && spec_level(
                old(lexer).text_view(),
                old(lexer).pos(),
                false,
                false,
                false,
                0,
                0,
                Seq::empty(),
            ).0 == Some(e),
        },
{
    coalesce(lexer, false, false)
}

/// Consumes tokens at one nesting level, accumulating an alternating
/// sequence of valued units and operators. Brackets recurse one level;
/// an unmatched closing bracket, an empty pair, a dangling operator, a
/// misplaced value and an overreaching grouping marker each abort with
/// the span at fault. Success and failure, and the error reported, are
/// exactly what `spec_level` says of the text; on success the accumulated
/// sequence is well formed, which is what makes the parser total.
#[verifier::rlimit(100)]
fn coalesce(lexer: &mut Lexer<'_>, last_valued: bool, expect_parenthesis: bool) -> (r: Result<
    Coalescence,
    Spanned<Error>,
>)
    requires
        old(lexer).wf(),
        old(lexer).text_view().len() < usize::MAX,
        !last_valued,
    ensures
        final(lexer).wf(),
        final(lexer).text_view() == old(lexer).text_view(),
        old(lexer).pos() <= final(lexer).pos(),
        match r {
            Ok(c) => {
                &&& (c matches Coalescence::Multiple(_))
                &&& wf(c)
                &&& spans_bounded(c, old(lexer).text_view().len() as int)
                &&& spec_level(
                    old(lexer).text_view(),
                    old(lexer).pos(),
                    false,
                    expect_parenthesis,
                    false,
                    0,
                    0,
                    Seq::empty(),
                ).0 is None
                &&& spec_level(
                    old(lexer).text_view(),
                    old(lexer).pos(),
                    false,
                    expect_parenthesis,
                    false,
                    0,
                    0,
                    Seq::empty(),
                ).1 == final(lexer).pos()
                &&& spec_level(
                    old(lexer).text_view(),
                    old(lexer).pos(),
                    false,
                    expect_parenthesis,
                    false,
                    0,
                    0,
                    Seq::empty(),
                ).2 == crate::parse::flatten_coalescence(c)
                &&& spec_level(
                    old(lexer).text_view(),
                    old(lexer).pos(),
                    false,
                    expect_parenthesis,
                    false,
                    0,
                    0,
                    Seq::empty(),
                ).3 == crate::coalescence::spec_anchors(c)
            },
            Err(e) => e.span.0 <= e.span.1 <= old(lexer).text_view().len() + 1 && spec_level(
                old(lexer).text_view(),
                old(lexer).pos(),
                false,
                expect_parenthesis,
                false,
                0,
                0,
                Seq::empty(),
            ).0 == Some(e),
        },
    decreases old(lexer).text_view().len() - old(lexer).pos(),
{
    let ghost text = old(lexer).text_view();
    let ghost entry = old(lexer).pos();
    let ghost whole = spec_level(text, entry, false, expect_parenthesis, false, 0, 0, Seq::empty());
    let mut last_valued = last_valued;
    let mut last_byte_end: usize = 0;
    let mut coalesces: Vec<Coalescence> = Vec::new();
    let ghost mut last_multiple: bool = false;
    proof {
        assert(unit_count(Seq::<Coalescence>::empty()) == 0);
    }
    #[verifier::rlimit(100)]
    #[verifier::spinoff_prover]
    loop
        invariant
            lexer.wf(),
            text == old(lexer).text_view(),
            entry == old(lexer).pos(),
            whole == spec_level(text, entry, false, expect_parenthesis, false, 0, 0, Seq::empty()),
            lexer.text_view() == text,
            text.len() < usize::MAX,
            entry <= lexer.pos(),
            run_state(coalesces@, false) == Some(last_valued),
            forall|i: int| 0 <= i < coalesces@.len() ==> wf(#[trigger] coalesces@[i]),
            forall|i: int|
                0 <= i < coalesces@.len() ==> spans_bounded(
                    #[trigger] coalesces@[i],
                    text.len() as int,
                ),
            last_byte_end <= text.len(),
            last_valued ==> coalesces@.len() > 0 && last_multiple == (coalesces@.last()
                is Multiple),
            (coalesces@.len() == 0) <==> (unit_count(coalesces@) == 0),
            unit_count(coalesces@) >= 0,
            ({
                let rest = spec_level(
                    text,
                    lexer.pos(),
                    last_valued,
                    expect_parenthesis,
                    last_multiple,
                    unit_count(coalesces@),
                    last_byte_end as int,
                    crate::coalescence::anchor_seq(coalesces@),
                );
                &&& whole.0 == rest.0
                &&& whole.0 is None ==> whole.1 == rest.1 && whole.2
                    == crate::parse::flatten_units(coalesces@) + rest.2 && whole.3 == rest.3
            }),
        decreases text.len() - lexer.pos(),
    {
        let ghost head = lexer.pos();
        let ghost head_valued = last_valued;
        let ghost head_multiple = last_multiple;
        let ghost head_units = unit_count(coalesces@);
        let ghost head_last = last_byte_end as int;
        let ghost head_flat = crate::parse::flatten_units(coalesces@);
        let ghost head_anchors = crate::coalescence::anchor_seq(coalesces@);
        let token = match lexer.next() {
            Some(Ok(token)) => token,
            Some(Err(error)) => {
                proof {
                    let start = crate::lexer::skip_end(text, head);
                    assert(token_step(text, start) == TokenStep::Bad(error)) by {
                        reveal(token_step);
                    }
                    bad_token_relation(
                        text,
                        head,
                        head_valued,
                        expect_parenthesis,
                        head_multiple,
                        head_units,
                        head_last,
                        error,
                        head_anchors,
                    );
                }
                return Err(error);
            },
            None => {
                proof {
                    end_relation(
                        text,
                        head,
                        head_valued,
                        expect_parenthesis,
                        head_multiple,
                        head_units,
                        head_last,
                        head_anchors,
                    );
                }
                let last_span = Span(last_byte_end, last_byte_end + 1);
                if !last_valued {
                    return Err(Spanned::new(Error::ExpectedValued, last_span));
                }
                if expect_parenthesis {
                    return Err(Spanned::new(Error::MismatchedBracket, last_span));
                }
                proof {
                    assert(head_flat + Seq::<crate::parse::Atom>::empty() =~= head_flat);
                }
                return Ok(Coalescence::Multiple(coalesces));
            },
        };
        let ghost start = crate::lexer::skip_end(text, head);
        let Spanned { node, span } = token;
        last_byte_end = span.byte_end();
        match node {
            Token::ParenthesisClose => {
                proof {
                    assert(token_step(text, start) == TokenStep::Close { end: start + 1 }) by {
                        reveal(token_step);
                    }
                    close_relation(
                        text,
                        head,
                        head_valued,
                        expect_parenthesis,
                        head_multiple,
                        head_units,
                        head_last,
                        start,
                        head_anchors,
                    );
                }
                if expect_parenthesis {
                    if coalesces.len() == 0 {
                        return Err(Spanned::new(Error::EmptyBrackets, span));
                    }
                    if !last_valued {
                        let last_span = Span(last_byte_end, last_byte_end + 1);
                        return Err(Spanned::new(Error::ExpectedValued, last_span));
                    }
                    proof {
                        assert(head_flat + Seq::<crate::parse::Atom>::empty() =~= head_flat);
                    }
                    return Ok(Coalescence::Multiple(coalesces));
                }
                return Err(Spanned::new(Error::MismatchedBracket, span));
            },
            Token::ParenthesisOpen => {
                proof {
                    assert(token_step(text, start) == TokenStep::Open { end: start + 1 }) by {
                        reveal(token_step);
                    }
                }
                let ghost before = coalesces@;
                let ghost was_valued = last_valued;
                if last_valued {
                    let operator = Spanned::new(Operator::Multiply, span);
                    proof {
                        lemma_run_state_snoc(coalesces@, Coalescence::Operator(operator), false);
                        lemma_unit_count_push(coalesces@, Coalescence::Operator(operator));
                        crate::parse::lemma_flatten_units_push(
                            coalesces@,
                            Coalescence::Operator(operator),
                        );
                    }
                    coalesces.push(Coalescence::Operator(operator));
                }
                let ghost multiplied = coalesces@;
                let inner = coalesce(lexer, false, true);
                match inner {
                    Err(error) => {
                        proof {
                            open_failure_relation(
                                text,
                                head,
                                head_valued,
                                expect_parenthesis,
                                head_multiple,
                                head_units,
                                head_last,
                                start,
                                head_anchors,
                            );
                        }
                        return Err(error);
                    },
                    Ok(group) => {
                        proof {
                            lemma_run_state_snoc(coalesces@, group, false);
                            lemma_unit_count_push(coalesces@, group);
                        }
                        coalesces.push(group);
                        last_valued = true;
                        proof {
                            last_multiple = true;
                            let inner_walk = spec_level(
                                text,
                                start + 1,
                                false,
                                true,
                                false,
                                0,
                                0,
                                Seq::empty(),
                            );
                            let next = spec_level(
                                text,
                                lexer.pos(),
                                true,
                                expect_parenthesis,
                                true,
                                head_units + 1,
                                start + 1,
                                if inner_walk.3.len() > 0 {
                                    head_anchors.push(inner_walk.3[0])
                                } else {
                                    head_anchors
                                },
                            );
                            open_step_relation(
                                text,
                                head,
                                head_valued,
                                expect_parenthesis,
                                head_multiple,
                                head_units,
                                head_last,
                                start,
                                lexer.pos(),
                                head_anchors,
                            );
                            open_group_effects(
                                before,
                                multiplied,
                                coalesces@,
                                coalesces@.last(),
                                start,
                                was_valued,
                                inner_walk.3,
                                inner_walk.2,
                            );
                            let read = if was_valued {
                                seq![implicit_multiply(start)] + inner_walk.2
                            } else {
                                inner_walk.2
                            };
                            lemma_reattach(head_flat, read, next.2);
                            if was_valued {
                                lemma_reattach(
                                    head_flat,
                                    seq![implicit_multiply(start)],
                                    inner_walk.2,
                                );
                            }
                        }
                    },
                }
            },
            Token::Operator(operator) => {
                if !last_valued {
                    if operator == Operator::Minus {
                        let function = Spanned::new(Function::UnaryMinus, span);
                        proof {
                            assert(token_step(text, start) == TokenStep::Minus {
                                end: start + 1,
                            }) by {
                                reveal(token_step);
                            }
                            lemma_run_state_snoc(
                                coalesces@,
                                Coalescence::Function(function),
                                false,
                            );
                            lemma_unit_count_push(coalesces@, Coalescence::Function(function));
                            crate::parse::lemma_flatten_units_push(
                                coalesces@,
                                Coalescence::Function(function),
                            );
                            crate::coalescence::lemma_anchor_seq_push(
                                coalesces@,
                                Coalescence::Function(function),
                            );
                        }
                        coalesces.push(Coalescence::Function(function));
                        proof {
                            assert(crate::coalescence::anchor_seq(coalesces@)
                                =~= head_anchors.push(start as usize));
                        }
                        proof {
                            last_multiple = false;
                            let next = spec_level(
                                text,
                                lexer.pos(),
                                false,
                                expect_parenthesis,
                                false,
                                head_units + 1,
                                start + 1,
                                head_anchors.push(start as usize),
                            );
                            unary_minus_step_relation(
                                text,
                                head,
                                expect_parenthesis,
                                head_multiple,
                                head_units,
                                head_last,
                                start,
                                head_anchors,
                            );
                            lemma_reattach(
                                head_flat,
                                seq![
                                    crate::parse::Atom::Function(
                                        Function::UnaryMinus,
                                        start as usize,
                                    ),
                                ],
                                next.2,
                            );
                        }
                    } else {
                        proof {
                            assert(token_step(text, start) == TokenStep::Operator {
                                end: start + 1,
                                operator,
                            }) by {
                                reveal(token_step);
                            }
                            operator_failure_relation(
                                text,
                                head,
                                expect_parenthesis,
                                head_multiple,
                                head_units,
                                head_last,
                                start,
                                operator,
                                head_anchors,
                            );
                        }
                        return Err(Spanned::new(Error::ExpectedValued, span));
                    }
                } else {
                    let spanned = Spanned::new(operator, span);
                    proof {
                        if operator == Operator::Minus {
                            assert(token_step(text, start) == TokenStep::Minus {
                                end: start + 1,
                            }) by {
                                reveal(token_step);
                            }
                        } else {
                            assert(token_step(text, start) == TokenStep::Operator {
                                end: start + 1,
                                operator,
                            }) by {
                                reveal(token_step);
                            }
                        }
                        lemma_run_state_snoc(coalesces@, Coalescence::Operator(spanned), false);
                        lemma_unit_count_push(coalesces@, Coalescence::Operator(spanned));
                        crate::parse::lemma_flatten_units_push(
                            coalesces@,
                            Coalescence::Operator(spanned),
                        );
                        crate::coalescence::lemma_anchor_seq_push(
                            coalesces@,
                            Coalescence::Operator(spanned),
                        );
                    }
                    coalesces.push(Coalescence::Operator(spanned));
                    last_valued = false;
                    proof {
                        assert(crate::coalescence::anchor_seq(coalesces@) =~= head_anchors);
                    }
                    proof {
                        last_multiple = false;
                        let next = spec_level(
                            text,
                            lexer.pos(),
                            false,
                            expect_parenthesis,
                            false,
                            head_units,
                            start + 1,
                            head_anchors,
                        );
                        binary_step_relation(
                            text,
                            head,
                            expect_parenthesis,
                            head_multiple,
                            head_units,
                            head_last,
                            start,
                            operator,
                            head_anchors,
                        );
                        lemma_reattach(
                            head_flat,
                            seq![crate::parse::Atom::Operator(spanned)],
                            next.2,
                        );
                    }
                }
            },
            Token::Terminal(terminal) => {
                let ghost atom = crate::parse::Atom::Terminal(Spanned { node: terminal, span });
                proof {
                    assert(token_step(text, start) == TokenStep::Valued {
                        end: span.1 as int,
                        atom,
                    }) by {
                        reveal(token_step);
                    }
                }
                let unit = Coalescence::Terminal(Spanned::new(terminal, span));
                let ghost unit_ghost = unit;
                let ghost before = coalesces@;
                let pushed = value(&mut coalesces, &mut last_valued, unit, span);
                if let Err(error) = pushed {
                    proof {
                        value_failure_relation(
                            text,
                            head,
                            expect_parenthesis,
                            head_units,
                            head_last,
                            start,
                            span.1 as int,
                            atom,
                            head_anchors,
                        );
                    }
                    return Err(error);
                }
                proof {
                    last_multiple = false;
                    value_step_relation(
                        text,
                        head,
                        head_valued,
                        expect_parenthesis,
                        head_multiple,
                        head_units,
                        head_last,
                        start,
                        span.1 as int,
                        atom,
                        head_flat,
                        before,
                        coalesces@,
                        unit_ghost,
                        lexer.pos(),
                        head_anchors,
                    );
                }
            },
            Token::Variable(variable) => {
                let ghost name = variable@;
                let ghost atom = crate::parse::Atom::Variable(span, name);
                proof {
                    assert(token_step(text, start) == TokenStep::Valued {
                        end: span.1 as int,
                        atom,
                    }) by {
                        reveal(token_step);
                    }
                }
                let unit = Coalescence::Variable(Spanned::new(variable, span));
                let ghost unit_ghost = unit;
                let ghost before = coalesces@;
                let pushed = value(&mut coalesces, &mut last_valued, unit, span);
                if let Err(error) = pushed {
                    proof {
                        value_failure_relation(
                            text,
                            head,
                            expect_parenthesis,
                            head_units,
                            head_last,
                            start,
                            span.1 as int,
                            atom,
                            head_anchors,
                        );
                    }
                    return Err(error);
                }
                proof {
                    last_multiple = false;
                    value_step_relation(
                        text,
                        head,
                        head_valued,
                        expect_parenthesis,
                        head_multiple,
                        head_units,
                        head_last,
                        start,
                        span.1 as int,
                        atom,
                        head_flat,
                        before,
                        coalesces@,
                        unit_ghost,
                        lexer.pos(),
                        head_anchors,
                    );
                }
            },
            Token::Constant(constant) => {
                let ghost atom = crate::parse::Atom::Terminal(
                    Spanned { node: Numeric::Bits(constant.spec_value()), span },
                );
                proof {
                    assert(token_step(text, start) == TokenStep::Valued {
                        end: span.1 as int,
                        atom,
                    }) by {
                        reveal(token_step);
                    }
                }
                let bits = constant.value();
                let unit = Coalescence::Terminal(Spanned::new(Numeric::Bits(bits), span));
                let ghost unit_ghost = unit;
                let ghost before = coalesces@;
                let pushed = value(&mut coalesces, &mut last_valued, unit, span);
                if let Err(error) = pushed {
                    proof {
                        value_failure_relation(
                            text,
                            head,
                            expect_parenthesis,
                            head_units,
                            head_last,
                            start,
                            span.1 as int,
                            atom,
                            head_anchors,
                        );
                    }
                    return Err(error);
                }
                proof {
                    last_multiple = false;
                    value_step_relation(
                        text,
                        head,
                        head_valued,
                        expect_parenthesis,
                        head_multiple,
                        head_units,
                        head_last,
                        start,
                        span.1 as int,
                        atom,
                        head_flat,
                        before,
                        coalesces@,
                        unit_ghost,
                        lexer.pos(),
                        head_anchors,
                    );
                }
            },
            Token::Function(function) => {
                proof {
                    assert(token_step(text, start) == TokenStep::Prefix {
                        end: span.1 as int,
                        function,
                    }) by {
                        reveal(token_step);
                    }
                }
                if !last_valued {
                    let spanned = Spanned::new(function, span);
                    proof {
                        lemma_run_state_snoc(coalesces@, Coalescence::Function(spanned), false);
                        lemma_unit_count_push(coalesces@, Coalescence::Function(spanned));
                        crate::parse::lemma_flatten_units_push(
                            coalesces@,
                            Coalescence::Function(spanned),
                        );
                        crate::coalescence::lemma_anchor_seq_push(
                            coalesces@,
                            Coalescence::Function(spanned),
                        );
                    }
                    coalesces.push(Coalescence::Function(spanned));
                    proof {
                        assert(crate::coalescence::anchor_seq(coalesces@)
                            =~= head_anchors.push(start as usize));
                    }
                    proof {
                        last_multiple = false;
                        let next = spec_level(
                            text,
                            lexer.pos(),
                            false,
                            expect_parenthesis,
                            false,
                            head_units + 1,
                            span.1 as int,
                            head_anchors.push(start as usize),
                        );
                        prefix_step_relation(
                            text,
                            head,
                            expect_parenthesis,
                            head_multiple,
                            head_units,
                            head_last,
                            start,
                            span.1 as int,
                            function,
                            head_anchors,
                        );
                        lemma_reattach(
                            head_flat,
                            seq![crate::parse::Atom::Function(function, start as usize)],
                            next.2,
                        );
                    }
                } else {
                    proof {
                        prefix_failure_relation(
                            text,
                            head,
                            expect_parenthesis,
                            head_multiple,
                            head_units,
                            head_last,
                            start,
                            span.1 as int,
                            function,
                            head_anchors,
                        );
                    }
                    return Err(Spanned::new(Error::ExpectedOperator, span));
                }
            },
            Token::Coalesce(count) => {
                proof {
                    assert(token_step(text, start) == TokenStep::Marker {
                        end: span.1 as int,
                        target: count + 1,
                    }) by {
                        reveal(token_step);
                    }
                }
                let ghost before = coalesces@;
                let grouped = coalesce_marker(&mut coalesces, count, last_valued, span);
                if let Err(error) = grouped {
                    proof {
                        lemma_unit_count_nonneg(before);
                        marker_failure_relation(
                            text,
                            head,
                            head_valued,
                            expect_parenthesis,
                            head_multiple,
                            head_units,
                            head_last,
                            start,
                            span.1 as int,
                            count + 1,
                            head_anchors,
                        );
                    }
                    return Err(error);
                }
                proof {
                    let j = splice_index(before, count + 1);
                    lemma_splice_index(before, count + 1);
                    assert(before =~= before.take(j) + before.skip(j));
                    lemma_unit_count_concat(before.take(j), before.skip(j));
                    assert(coalesces@.drop_last() =~= before.take(j));
                    assert(unit_count(coalesces@) == unit_count(before.take(j)) + 1);
                    lemma_unit_count_nonneg(before.take(j));
                    last_multiple = true;
                    assert(coalesces@ =~= before.take(j).push(coalesces@.last()));
                    crate::parse::lemma_flatten_units_push(before.take(j), coalesces@.last());
                    crate::parse::lemma_flatten_units_concat(before.take(j), before.skip(j));
                    assert(crate::parse::flatten_coalescence(coalesces@.last())
                        == crate::parse::flatten_units(before.skip(j)));
                    assert(crate::parse::flatten_units(coalesces@) == head_flat);
                    marker_anchor_effect(before, coalesces@, j, count + 1);
                    marker_step_relation(
                        text,
                        head,
                        expect_parenthesis,
                        head_multiple,
                        head_units,
                        head_last,
                        start,
                        span.1 as int,
                        count + 1,
                        head_anchors,
                    );
                }
            },
        }
    }
}

/// One valued unit arriving at a level reads as its atom, preceded by the
/// implicit multiplication when one was inserted; the walk from the head
/// position continues past it accordingly.
proof fn value_step_relation(
    text: Seq<u8>,
    head: int,
    head_valued: bool,
    expect: bool,
    head_multiple: bool,
    head_units: int,
    head_last: int,
    start: int,
    end: int,
    atom: crate::parse::Atom,
    head_flat: Seq<crate::parse::Atom>,
    before: Seq<Coalescence>,
    after: Seq<Coalescence>,
    unit: Coalescence,
    position: int,
    anchors: Seq<usize>,
)
    requires
        start == crate::lexer::skip_end(text, head),
        head <= start < text.len(),
        token_step(text, start) == (TokenStep::Valued { end, atom }),
        head < end <= text.len(),
        position == end,
        crate::parse::flatten_coalescence(unit) == seq![atom],
        spec_byte_start(unit) == start,
        !(unit is Operator),
        0 <= start <= usize::MAX,
        head_units == unit_count(before),
        head_flat == crate::parse::flatten_units(before),
        anchors == crate::coalescence::anchor_seq(before),
        !head_valued || head_multiple,
        after == before.push(unit) || after == before.push(
            Coalescence::Operator(
                Spanned {
                    node: Operator::Multiply,
                    span: Span(start as usize, (start + 1) as usize),
                },
            ),
        ).push(unit),
        head_valued ==> after != before.push(unit) && after == before.push(
            Coalescence::Operator(
                Spanned {
                    node: Operator::Multiply,
                    span: Span(start as usize, (start + 1) as usize),
                },
            ),
        ).push(unit),
        !head_valued ==> after == before.push(unit),
    ensures
        ({
            let head_rest = spec_level(
                text,
                head,
                head_valued,
                expect,
                head_multiple,
                head_units,
                head_last,
                anchors,
            );
            let next = spec_level(
                text,
                end,
                true,
                expect,
                false,
                head_units + 1,
                end,
                anchors.push(start as usize),
            );
            &&& head_rest.0 == next.0
            &&& head_rest.0 is None ==> head_rest.1 == next.1 && head_flat + head_rest.2
                == crate::parse::flatten_units(after) + next.2 && head_rest.3 == next.3
        }),
        unit_count(after) == head_units + 1,
        crate::coalescence::anchor_seq(after) == anchors.push(start as usize),
{
    if after == before.push(unit) {
        lemma_unit_count_push(before, unit);
    } else {
        let operator = Coalescence::Operator(
            Spanned {
                node: Operator::Multiply,
                span: Span(start as usize, (start + 1) as usize),
            },
        );
        lemma_unit_count_push(before, operator);
        lemma_unit_count_push(before.push(operator), unit);
    }
    value_anchor_effect(before, after, unit, start);
    let head_rest = spec_level(
        text,
        head,
        head_valued,
        expect,
        head_multiple,
        head_units,
        head_last,
        anchors,
    );
    let next = spec_level(
        text,
        end,
        true,
        expect,
        false,
        head_units + 1,
        end,
        anchors.push(start as usize),
    );
    let read = if head_valued {
        seq![implicit_multiply(start), atom]
    } else {
        seq![atom]
    };
    assert(head_rest == (next.0, next.1, read + next.2, next.3)) by {
        reveal(spec_level);
    }
    if head_valued {
        assert(after != before.push(unit));
        value_flatten_effect(before, after, unit, atom, start, next.2);
        assert(seq![implicit_multiply(start), atom] == read);
    } else {
        value_flatten_effect(before, after, unit, atom, start, next.2);
    }
}

/// A lexically bad token aborts the level with its error.
proof fn bad_token_relation(
    text: Seq<u8>,
    head: int,
    valued: bool,
    expect: bool,
    head_multiple: bool,
    head_units: int,
    head_last: int,
    error: Spanned<Error>,
    anchors: Seq<usize>,
)
    requires
        head <= crate::lexer::skip_end(text, head) < text.len(),
        token_step(text, crate::lexer::skip_end(text, head)) == TokenStep::Bad(error),
    ensures
        spec_level(text, head, valued, expect, head_multiple, head_units, head_last, anchors).0
            == Some(
            error,
        ),
{
    reveal(spec_level);
}

/// What the walk concludes when only whitespace is left.
proof fn end_relation(
    text: Seq<u8>,
    head: int,
    valued: bool,
    expect: bool,
    head_multiple: bool,
    head_units: int,
    head_last: int,
    anchors: Seq<usize>,
)
    requires
        head <= text.len(),
        crate::lexer::skip_end(text, head) == text.len(),
    ensures
        ({
            let head_rest = spec_level(
                text,
                head,
                valued,
                expect,
                head_multiple,
                head_units,
                head_last,
                anchors,
            );
            if !valued {
                head_rest.0 == Some(
                    Spanned {
                        node: Error::ExpectedValued,
                        span: Span(head_last as usize, (head_last + 1) as usize),
                    },
                )
            } else if expect {
                head_rest.0 == Some(
                    Spanned {
                        node: Error::MismatchedBracket,
                        span: Span(head_last as usize, (head_last + 1) as usize),
                    },
                )
            } else {
                head_rest == (
                    None::<Spanned<Error>>,
                    text.len() as int,
                    Seq::<crate::parse::Atom>::empty(),
                    anchors,
                )
            }
        }),
{
    reveal(spec_level);
}

/// What the walk concludes at a closing bracket.
proof fn close_relation(
    text: Seq<u8>,
    head: int,
    valued: bool,
    expect: bool,
    head_multiple: bool,
    head_units: int,
    head_last: int,
    start: int,
    anchors: Seq<usize>,
)
    requires
        start == crate::lexer::skip_end(text, head),
        head <= start < text.len(),
        token_step(text, start) == (TokenStep::Close { end: start + 1 }),
    ensures
        ({
            let head_rest = spec_level(
                text,
                head,
                valued,
                expect,
                head_multiple,
                head_units,
                head_last,
                anchors,
            );
            if !expect {
                head_rest.0 == Some(
                    Spanned {
                        node: Error::MismatchedBracket,
                        span: Span(start as usize, (start + 1) as usize),
                    },
                )
            } else if head_units == 0 {
                head_rest.0 == Some(
                    Spanned {
                        node: Error::EmptyBrackets,
                        span: Span(start as usize, (start + 1) as usize),
                    },
                )
            } else if !valued {
                head_rest.0 == Some(
                    Spanned {
                        node: Error::ExpectedValued,
                        span: Span((start + 1) as usize, (start + 2) as usize),
                    },
                )
            } else {
                head_rest == (
                    None::<Spanned<Error>>,
                    start + 1,
                    Seq::<crate::parse::Atom>::empty(),
                    anchors,
                )
            }
        }),
{
    reveal(spec_level);
}

/// A value arriving right after a bare value aborts the level.
proof fn value_failure_relation(
    text: Seq<u8>,
    head: int,
    expect: bool,
    head_units: int,
    head_last: int,
    start: int,
    end: int,
    atom: crate::parse::Atom,
    anchors: Seq<usize>,
)
    requires
        start == crate::lexer::skip_end(text, head),
        head <= start < text.len(),
        token_step(text, start) == (TokenStep::Valued { end, atom }),
    ensures
        spec_level(text, head, true, expect, false, head_units, head_last, anchors).0 == Some(
            Spanned {
                node: Error::ExpectedOperator,
                span: Span(start as usize, end as usize),
            },
        ),
{
    reveal(spec_level);
}

/// A prefix function arriving after a completed value aborts the level.
proof fn prefix_failure_relation(
    text: Seq<u8>,
    head: int,
    expect: bool,
    head_multiple: bool,
    head_units: int,
    head_last: int,
    start: int,
    end: int,
    function: Function,
    anchors: Seq<usize>,
)
    requires
        start == crate::lexer::skip_end(text, head),
        head <= start < text.len(),
        token_step(text, start) == (TokenStep::Prefix { end, function }),
    ensures
        spec_level(text, head, true, expect, head_multiple, head_units, head_last, anchors).0
            == Some(
            Spanned {
                node: Error::ExpectedOperator,
                span: Span(start as usize, end as usize),
            },
        ),
{
    reveal(spec_level);
}

/// A binary operator (other than minus) arriving with no completed value
/// aborts the level.
proof fn operator_failure_relation(
    text: Seq<u8>,
    head: int,
    expect: bool,
    head_multiple: bool,
    head_units: int,
    head_last: int,
    start: int,
    operator: Operator,
    anchors: Seq<usize>,
)
    requires
        start == crate::lexer::skip_end(text, head),
        head <= start < text.len(),
        token_step(text, start) == (TokenStep::Operator { end: start + 1, operator }),
    ensures
        spec_level(text, head, false, expect, head_multiple, head_units, head_last, anchors).0
            == Some(
            Spanned {
                node: Error::ExpectedValued,
                span: Span(start as usize, (start + 1) as usize),
            },
        ),
{
    reveal(spec_level);
}

/// What a grouping marker concludes when it cannot bundle.
proof fn marker_failure_relation(
    text: Seq<u8>,
    head: int,
    valued: bool,
    expect: bool,
    head_multiple: bool,
    head_units: int,
    head_last: int,
    start: int,
    end: int,
    target: int,
    anchors: Seq<usize>,
)
    requires
        start == crate::lexer::skip_end(text, head),
        head <= start < text.len(),
        token_step(text, start) == (TokenStep::Marker { end, target }),
        target > head_units || !valued,
    ensures
        ({
            let head_rest = spec_level(
                text,
                head,
                valued,
                expect,
                head_multiple,
                head_units,
                head_last,
                anchors,
            );
            if target > head_units {
                head_rest.0 == Some(
                    Spanned {
                        node: Error::InvalidCoalesce,
                        span: Span(start as usize, end as usize),
                    },
                )
            } else {
                head_rest.0 == Some(
                    Spanned {
                        node: Error::ExpectedValued,
                        span: Span(start as usize, end as usize),
                    },
                )
            }
        }),
{
    reveal(spec_level);
}

/// A prefix function name arriving in the non-valued state pushes one
/// function unit and reads as its atom.
proof fn prefix_step_relation(
    text: Seq<u8>,
    head: int,
    expect: bool,
    head_multiple: bool,
    head_units: int,
    head_last: int,
    start: int,
    end: int,
    function: Function,
    anchors: Seq<usize>,
)
    requires
        start == crate::lexer::skip_end(text, head),
        head <= start < text.len(),
        token_step(text, start) == (TokenStep::Prefix { end, function }),
        head < end <= text.len(),
    ensures
        ({
            let head_rest = spec_level(
                text,
                head,
                false,
                expect,
                head_multiple,
                head_units,
                head_last,
                anchors,
            );
            let next = spec_level(
                text,
                end,
                false,
                expect,
                false,
                head_units + 1,
                end,
                anchors.push(start as usize),
            );
            head_rest == (next.0, next.1, seq![
                crate::parse::Atom::Function(function, start as usize),
            ] + next.2, next.3)
        }),
{
    reveal(spec_level);
}

/// A minus arriving in the non-valued state pushes a unary-minus function
/// unit and reads as its atom.
proof fn unary_minus_step_relation(
    text: Seq<u8>,
    head: int,
    expect: bool,
    head_multiple: bool,
    head_units: int,
    head_last: int,
    start: int,
    anchors: Seq<usize>,
)
    requires
        start == crate::lexer::skip_end(text, head),
        head <= start < text.len(),
        token_step(text, start) == (TokenStep::Minus { end: start + 1 }),
        start + 1 <= text.len(),
    ensures
        ({
            let head_rest = spec_level(
                text,
                head,
                false,
                expect,
                head_multiple,
                head_units,
                head_last,
                anchors,
            );
            let next = spec_level(
                text,
                start + 1,
                false,
                expect,
                false,
                head_units + 1,
                start + 1,
                anchors.push(start as usize),
            );
            head_rest == (next.0, next.1, seq![
                crate::parse::Atom::Function(Function::UnaryMinus, start as usize),
            ] + next.2, next.3)
        }),
{
    reveal(spec_level);
}

/// A binary operator arriving in the valued state reads as its atom and
/// clears the state.
proof fn binary_step_relation(
    text: Seq<u8>,
    head: int,
    expect: bool,
    head_multiple: bool,
    head_units: int,
    head_last: int,
    start: int,
    operator: Operator,
    anchors: Seq<usize>,
)
    requires
        start == crate::lexer::skip_end(text, head),
        head <= start < text.len(),
        (operator == Operator::Minus && token_step(text, start) == (TokenStep::Minus {
            end: start + 1,
        })) || token_step(text, start) == (TokenStep::Operator { end: start + 1, operator }),
        start + 1 <= text.len(),
    ensures
        ({
            let head_rest = spec_level(
                text,
                head,
                true,
                expect,
                head_multiple,
                head_units,
                head_last,
                anchors,
            );
            let next = spec_level(
                text,
                start + 1,
                false,
                expect,
                false,
                head_units,
                start + 1,
                anchors,
            );
            head_rest == (next.0, next.1, seq![
                crate::parse::Atom::Operator(
                    Spanned { node: operator, span: Span(start as usize, (start + 1) as usize) },
                ),
            ] + next.2, next.3)
        }),
{
    reveal(spec_level);
}

/// An opening bracket runs a nested level; on its success the group joins
/// this level as one valued unit, preceded by an implicit multiplication
/// when the state was valued.
proof fn open_step_relation(
    text: Seq<u8>,
    head: int,
    valued: bool,
    expect: bool,
    head_multiple: bool,
    head_units: int,
    head_last: int,
    start: int,
    after: int,
    anchors: Seq<usize>,
)
    requires
        start == crate::lexer::skip_end(text, head),
        head <= start < text.len(),
        token_step(text, start) == (TokenStep::Open { end: start + 1 }),
        spec_level(text, start + 1, false, true, false, 0, 0, Seq::empty()).0 is None,
        after == spec_level(text, start + 1, false, true, false, 0, 0, Seq::empty()).1,
        head < after <= text.len(),
    ensures
        ({
            let head_rest = spec_level(
                text,
                head,
                valued,
                expect,
                head_multiple,
                head_units,
                head_last,
                anchors,
            );
            let inner = spec_level(text, start + 1, false, true, false, 0, 0, Seq::empty());
            let group_anchors = if inner.3.len() > 0 {
                anchors.push(inner.3[0])
            } else {
                anchors
            };
            let next = spec_level(
                text,
                after,
                true,
                expect,
                true,
                head_units + 1,
                start + 1,
                group_anchors,
            );
            let read = if valued {
                seq![implicit_multiply(start)] + inner.2
            } else {
                inner.2
            };
            head_rest == (next.0, next.1, read + next.2, next.3)
        }),
{
    reveal(spec_level);
}

/// An opening bracket whose nested level fails aborts with that failure.
proof fn open_failure_relation(
    text: Seq<u8>,
    head: int,
    valued: bool,
    expect: bool,
    head_multiple: bool,
    head_units: int,
    head_last: int,
    start: int,
    anchors: Seq<usize>,
)
    requires
        start == crate::lexer::skip_end(text, head),
        head <= start < text.len(),
        token_step(text, start) == (TokenStep::Open { end: start + 1 }),
        spec_level(text, start + 1, false, true, false, 0, 0, Seq::empty()).0 is Some,
    ensures
        spec_level(text, head, valued, expect, head_multiple, head_units, head_last, anchors).0
            == spec_level(text, start + 1, false, true, false, 0, 0, Seq::empty()).0,
{
    reveal(spec_level);
}

/// A grouping marker bundles without changing the level's reading.
proof fn marker_step_relation(
    text: Seq<u8>,
    head: int,
    expect: bool,
    head_multiple: bool,
    head_units: int,
    head_last: int,
    start: int,
    end: int,
    target: int,
    anchors: Seq<usize>,
)
    requires
        start == crate::lexer::skip_end(text, head),
        head <= start < text.len(),
        token_step(text, start) == (TokenStep::Marker { end, target }),
        target <= head_units,
        head < end <= text.len(),
    ensures
        spec_level(text, head, true, expect, head_multiple, head_units, head_last, anchors)
            == spec_level(
            text,
            end,
            true,
            expect,
            true,
            head_units - target + 1,
            end,
            anchors.take(anchors.len() - (target - 1)),
        ),
{
    reveal(spec_level);
}

/// Accumulating one valued unit appends its reading, preceded by the
/// implicit multiplication when one was inserted.
proof fn value_flatten_effect(
    before: Seq<Coalescence>,
    after: Seq<Coalescence>,
    unit: Coalescence,
    atom: crate::parse::Atom,
    start: int,
    rest: Seq<crate::parse::Atom>,
)
    requires
        crate::parse::flatten_coalescence(unit) == seq![atom],
        after == before.push(unit) || after == before.push(
            Coalescence::Operator(
                Spanned {
                    node: Operator::Multiply,
                    span: Span(start as usize, (start + 1) as usize),
                },
            ),
        ).push(unit),
    ensures
        after == before.push(unit) ==> crate::parse::flatten_units(before) + (seq![atom] + rest)
            == crate::parse::flatten_units(after) + rest,
        after != before.push(unit) ==> crate::parse::flatten_units(before) + (seq![
            implicit_multiply(start),
            atom,
        ] + rest) == crate::parse::flatten_units(after) + rest,
{
    if after == before.push(unit) {
        crate::parse::lemma_flatten_units_push(before, unit);
        lemma_reattach(crate::parse::flatten_units(before), seq![atom], rest);
    } else {
        let operator = Coalescence::Operator(
            Spanned {
                node: Operator::Multiply,
                span: Span(start as usize, (start + 1) as usize),
            },
        );
        crate::parse::lemma_flatten_units_push(before, operator);
        crate::parse::lemma_flatten_units_push(before.push(operator), unit);
        assert(crate::parse::flatten_coalescence(operator) == seq![implicit_multiply(start)]);
        assert(crate::parse::flatten_units(before) + (seq![
            implicit_multiply(start),
            atom,
        ] + rest) =~= crate::parse::flatten_units(after) + rest);
    }
}

/// A finished group joining a level appends its reading and its anchor —
/// the byte start of its first inner unit — after any implicit
/// multiplication.
proof fn open_group_effects(
    before: Seq<Coalescence>,
    multiplied: Seq<Coalescence>,
    after: Seq<Coalescence>,
    group: Coalescence,
    start: int,
    was_valued: bool,
    inner_anchors: Seq<usize>,
    inner_atoms: Seq<crate::parse::Atom>,
)
    requires
        crate::coalescence::wf(group),
        group is Multiple,
        inner_anchors == crate::coalescence::spec_anchors(group),
        inner_atoms == crate::parse::flatten_coalescence(group),
        multiplied == if was_valued {
            before.push(
                Coalescence::Operator(
                    Spanned {
                        node: Operator::Multiply,
                        span: Span(start as usize, (start + 1) as usize),
                    },
                ),
            )
        } else {
            before
        },
        after == multiplied.push(group),
    ensures
        inner_anchors.len() > 0,
        crate::coalescence::anchor_seq(after) == crate::coalescence::anchor_seq(before).push(
            inner_anchors[0],
        ),
        crate::parse::flatten_units(after) == crate::parse::flatten_units(before) + ((if was_valued {
            seq![implicit_multiply(start)]
        } else {
            Seq::<crate::parse::Atom>::empty()
        }) + inner_atoms),
{
    if let Coalescence::Multiple(grouped_units) = &group {
        assert(run_state(grouped_units@, false) == Some(true));
        assert(grouped_units@.len() > 0);
        assert(!(grouped_units@[0] is Operator));
        crate::coalescence::lemma_anchor_seq_first(grouped_units@);
        assert(inner_anchors[0] == spec_byte_start(group) as usize);
    }
    crate::coalescence::lemma_anchor_seq_push(multiplied, group);
    crate::parse::lemma_flatten_units_push(multiplied, group);
    if was_valued {
        let operator = Coalescence::Operator(
            Spanned {
                node: Operator::Multiply,
                span: Span(start as usize, (start + 1) as usize),
            },
        );
        crate::coalescence::lemma_anchor_seq_push(before, operator);
        crate::parse::lemma_flatten_units_push(before, operator);
        assert(crate::coalescence::anchor_seq(multiplied) =~= crate::coalescence::anchor_seq(
            before,
        ));
        assert(crate::parse::flatten_units(after) =~= crate::parse::flatten_units(before) + (seq![
            implicit_multiply(start),
        ] + inner_atoms));
    } else {
        assert(crate::parse::flatten_units(after) =~= crate::parse::flatten_units(before) + (Seq::<
            crate::parse::Atom,
        >::empty() + inner_atoms));
    }
    assert(crate::coalescence::anchor_seq(after) =~= crate::coalescence::anchor_seq(before).push(
        inner_anchors[0],
    ));
}

/// Accumulating one valued unit appends its anchor, whether or not an
/// implicit multiplication was inserted before it.
proof fn value_anchor_effect(
    before: Seq<Coalescence>,
    after: Seq<Coalescence>,
    unit: Coalescence,
    start: int,
)
    requires
        !(unit is Operator),
        spec_byte_start(unit) == start,
        0 <= start <= usize::MAX,
        after == before.push(unit) || after == before.push(
            Coalescence::Operator(
                Spanned {
                    node: Operator::Multiply,
                    span: Span(start as usize, (start + 1) as usize),
                },
            ),
        ).push(unit),
    ensures
        crate::coalescence::anchor_seq(after) == crate::coalescence::anchor_seq(before).push(
            start as usize,
        ),
{
    if after == before.push(unit) {
        crate::coalescence::lemma_anchor_seq_push(before, unit);
        assert(crate::coalescence::anchor_seq(before) + seq![(start as usize)]
            =~= crate::coalescence::anchor_seq(before).push(start as usize));
    } else {
        let operator = Coalescence::Operator(
            Spanned {
                node: Operator::Multiply,
                span: Span(start as usize, (start + 1) as usize),
            },
        );
        crate::coalescence::lemma_anchor_seq_push(before, operator);
        assert(crate::coalescence::anchor_seq(before.push(operator))
            =~= crate::coalescence::anchor_seq(before));
        crate::coalescence::lemma_anchor_seq_push(before.push(operator), unit);
        assert(crate::coalescence::anchor_seq(after) =~= crate::coalescence::anchor_seq(
            before,
        ).push(start as usize));
    }
}

/// Splicing a marker keeps the leading anchors and replaces the anchors of
/// the bundled units by the group's own, which is the first of them.
proof fn marker_anchor_effect(
    before: Seq<Coalescence>,
    after: Seq<Coalescence>,
    j: int,
    target: int,
)
    requires
        0 <= j < before.len(),
        !(before[j] is Operator),
        unit_count(before.skip(j)) == target,
        target >= 1,
        after.len() == j + 1,
        forall|k: int| 0 <= k < j ==> after[k] == before[k],
        after[j] matches Coalescence::Multiple(tail) && tail@ == before.skip(j),
    ensures
        crate::coalescence::anchor_seq(after) == crate::coalescence::anchor_seq(before).take(
            crate::coalescence::anchor_seq(before).len() - (target - 1),
        ),
{
    let lead = before.take(j);
    let bundled = before.skip(j);
    assert(before =~= lead + bundled);
    crate::coalescence::lemma_anchor_seq_concat(lead, bundled);
    crate::coalescence::lemma_anchor_seq_len(lead);
    crate::coalescence::lemma_anchor_seq_len(bundled);
    assert(bundled[0] == before[j]);
    crate::coalescence::lemma_anchor_seq_first(bundled);
    assert(after =~= lead.push(after[j]));
    crate::coalescence::lemma_anchor_seq_push(lead, after[j]);
    assert(spec_byte_start(after[j]) == spec_byte_start(before[j]));
    let front = crate::coalescence::anchor_seq(lead);
    let rest = crate::coalescence::anchor_seq(bundled);
    assert(rest[0] == spec_byte_start(before[j]) as usize);
    assert(crate::coalescence::anchor_seq(after) =~= (front + rest).take(front.len() as int + 1));
}

} // verus!
