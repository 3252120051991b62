use vstd::prelude::*;

use crate::error::eq_bytes;
use crate::item::{Constant, Function};

verus! {

/// A numeric literal as the lexer hands it on. Decimal literals keep only
/// their byte range (carried by the surrounding `Spanned`); the text is
/// converted to an IEEE binary64 by the evaluation driver. Literals with a
/// radix prefix are parsed here, exactly, into a signed integer. Constants
/// arrive directly as a binary64 bit pattern.
#[derive(Copy, Clone, Debug, PartialEq, Eq, Structural)]
pub enum Numeric {
    Decimal,
    Integer(i64),
    Bits(u64),
}

#[derive(Clone, Debug)]
pub enum Token {
    Terminal(Numeric),
    Variable(Vec<u8>),
    Operator(Operator),
    Function(Function),
    Constant(Constant),
    ParenthesisOpen,
    ParenthesisClose,
    Coalesce(usize),
}

impl PartialEq for Token {
    fn eq(&self, other: &Token) -> (r: bool) {
        match (self, other) {
            (Token::Terminal(a), Token::Terminal(b)) => a == b,
            (Token::Variable(a), Token::Variable(b)) => eq_bytes(a.as_slice(), b.as_slice()),
            (Token::Operator(a), Token::Operator(b)) => a == b,
            (Token::Function(a), Token::Function(b)) => a == b,
            (Token::Constant(a), Token::Constant(b)) => a == b,
            (Token::ParenthesisOpen, Token::ParenthesisOpen) => true,
            (Token::ParenthesisClose, Token::ParenthesisClose) => true,
            (Token::Coalesce(a), Token::Coalesce(b)) => a == b,
            _ => false,
        }
    }
}

impl vstd::std_specs::cmp::PartialEqSpecImpl for Token {
    open spec fn obeys_eq_spec() -> bool {
        true
    }

    open spec fn eq_spec(&self, other: &Token) -> bool {
        match (self, other) {
            (Token::Variable(a), Token::Variable(b)) => a@ == b@,
            _ => *self == *other,
        }
    }
}

#[derive(Copy, Clone, Debug, PartialEq, Eq, Structural)]
pub enum Operator {
    Add,
    Minus,
    Multiply,
    Divide,
    Modulo,
    Power,
}

impl Operator {
    /// Binding strength: additive below multiplicative below power.
    pub fn precedence(&self) -> (p: usize)
        ensures
            p == self.spec_precedence(),
    {
        match self {
            Operator::Add | Operator::Minus => 0,
            Operator::Multiply | Operator::Divide | Operator::Modulo => 1,
            Operator::Power => 2,
        }
    }

    pub open spec fn spec_precedence(self) -> usize {
        match self {
            Operator::Add | Operator::Minus => 0usize,
            Operator::Multiply | Operator::Divide | Operator::Modulo => 1usize,
            Operator::Power => 2usize,
        }
    }
}

} // verus!
