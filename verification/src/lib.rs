//! A one-line arithmetic language: text is tokenized, grouped, parsed by
//! precedence and evaluated, with every unit and every error attributed to
//! an exact byte range of the input. Numbers travel as IEEE binary64 bit
//! patterns; the arithmetic itself is performed by the caller, one requested
//! operation at a time, so that every decision around it is verified.

pub mod coalesce;
pub mod coalescence;
pub mod context;
pub mod error;
pub mod evaluation;
pub mod item;
pub mod lexer;
pub mod node;
pub mod parse;
pub mod span;
pub mod token;

use vstd::prelude::*;

use crate::coalesce::spec_level;
use crate::coalescence::{lemma_anchor_seq_bounded, spec_anchors, Coalescence};
use crate::context::Context;
use crate::error::Error;
use crate::evaluation::Evaluation;
use crate::lexer::Lexer;
use crate::node::{node_spans_ok, Node};
use crate::parse::{flatten_coalescence, flatten_node, flatten_post, spec_parse};
use crate::span::Spanned;

verus! {

/// Parses a whole text into one computation tree: tokens, grouping,
/// precedence. It fails exactly when one level of grouping fails, with
/// that failure; on success every node of the tree carries the byte range
/// it came from, and reading the tree back left to right gives exactly
/// the units the text spells out.
pub fn parse_text(text: &[u8]) -> (r: Result<Spanned<Node>, Spanned<Error>>)
    requires
        text@.len() < usize::MAX,
    ensures
        match r {
            Ok(root) => {
                &&& node_spans_ok(root)
                &&& spec_level(text@, 0, false, false, false, 0, 0, Seq::empty()).0 is None
                &&& flatten_node(root) == spec_level(text@, 0, false, false, false, 0, 0, Seq::empty()).2
                &&& (exists|c: Coalescence|
                    crate::coalescence::wf(c) && #[trigger] flatten_coalescence(c) == spec_level(
                        text@,
                        0,
                        false,
                        false,
                        false,
                        0,
                        0,
                        Seq::empty(),
                    ).2 && flatten_post(root) == spec_parse(c))
            },
            Err(e) => e.span.0 <= e.span.1 <= text@.len() + 1 && spec_level(
                text@,
                0,
                false,
                false,
                false,
                0,
                0,
                Seq::empty(),
            ).0 == Some(e),
        },
{
    let mut lexer = Lexer::new(text);
    let coalescence = match crate::coalesce::coalesce_root(&mut lexer) {
        Ok(coalescence) => coalescence,
        Err(error) => {
            return Err(error);
        },
    };
    let ghost grouped = coalescence;
    let root = crate::parse::parse_root(coalescence);
    proof {
        assert(crate::coalescence::wf(grouped) && flatten_coalescence(grouped) == spec_level(
            text@,
            0,
            false,
            false,
            false,
            0,
            0,
            Seq::empty(),
        ).2 && flatten_post(root) == spec_parse(grouped));
    }
    Ok(root)
}

/// Begins an evaluation of a text: everything up to the arithmetic. The
/// returned machine asks its driver for one numeric operation at a time
/// and makes every other decision itself; its program is the operand-first
/// order of a tree that reads back as exactly the text's units.
pub fn begin_evaluation(text: &[u8]) -> (r: Result<Evaluation, Spanned<Error>>)
    requires
        text@.len() < usize::MAX,
    ensures
        match r {
            Ok(machine) => machine.wf() && !machine.blocked() && spec_level(
                text@,
                0,
                false,
                false,
                false,
                0,
                0,
                Seq::empty(),
            ).0 is None && (exists|root: Spanned<Node>, c: Coalescence|
                machine.program@ == crate::evaluation::postorder(root) && node_spans_ok(root)
                    && crate::coalescence::wf(c) && #[trigger] flatten_node(root) == spec_level(
                    text@,
                    0,
                    false,
                    false,
                    false,
                    0,
                    0,
                    Seq::empty(),
                ).2 && #[trigger] flatten_coalescence(c) == spec_level(
                    text@,
                    0,
                    false,
                    false,
                    false,
                    0,
                    0,
                    Seq::empty(),
                ).2 && flatten_post(root) == spec_parse(c)),
            Err(e) => e.span.0 <= e.span.1 <= text@.len() + 1 && spec_level(
                text@,
                0,
                false,
                false,
                false,
                0,
                0,
                Seq::empty(),
            ).0 == Some(e),
        },
{
    let root = match parse_text(text) {
        Ok(root) => root,
        Err(error) => {
            return Err(error);
        },
    };
    let ghost witness = root;
    let machine = root.evaluate();
    proof {
        assert(machine.program@ == crate::evaluation::postorder(witness) && node_spans_ok(witness)
            && flatten_node(witness) == spec_level(text@, 0, false, false, false, 0, 0, Seq::empty()).2);
    }
    Ok(machine)
}

/// The coalescer's view of a possibly unfinished text: one byte offset per
/// top-level unit, for live highlighting. Safe on any input; an invalid
/// text surfaces the same error a full evaluation would.
pub fn anchors(text: &[u8]) -> (r: Result<Vec<usize>, Spanned<Error>>)
    requires
        text@.len() < usize::MAX,
    ensures
        match r {
            Ok(offsets) => {
                &&& (forall|i: int|
                    0 <= i < offsets@.len() ==> #[trigger] offsets@[i] <= text@.len())
                &&& spec_level(text@, 0, false, false, false, 0, 0, Seq::empty()).0 is None
                &&& offsets@ == spec_level(text@, 0, false, false, false, 0, 0, Seq::empty()).3
            },
            Err(e) => e.span.0 <= e.span.1 <= text@.len() + 1 && spec_level(
                text@,
                0,
                false,
                false,
                false,
                0,
                0,
                Seq::empty(),
            ).0 == Some(e),
        },
{
    let mut lexer = Lexer::new(text);
    let coalescence = match crate::coalesce::coalesce_root(&mut lexer) {
        Ok(coalescence) => coalescence,
        Err(error) => {
            return Err(error);
        },
    };
    proof {
        if let Coalescence::Multiple(units) = &coalescence {
            lemma_anchor_seq_bounded(units@, text@.len() as int);
            assert(spec_anchors(coalescence) == crate::coalescence::anchor_seq(units@));
        }
    }
    Ok(coalescence.coalesce_anchors())
}

/// Law: the slot key a context assigns next is determined by the values it
/// already stores — re-running the same work against an unmodified context
/// assigns the same key — and that key never collides with a stored slot,
/// so keys are never reused.
pub proof fn lemma_slot_key_deterministic(a: Context, b: Context)
    requires
        a.wf(),
        b.wf(),
        a.values_view() == b.values_view(),
    ensures
        a.index() == b.index(),
        a.index() == a.values_view().len(),
{
}

} // verus!
