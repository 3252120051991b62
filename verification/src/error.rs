use vstd::prelude::*;

verus! {

/// Everything that can go wrong between the raw text and the final number.
///
/// Lexical: `InvalidCharacter`, `InvalidTerminal`, `InvalidItem`.
/// Structural: `ExpectedValued`, `ExpectedOperator`, `MismatchedBracket`,
/// `EmptyBrackets`, `InvalidCoalesce`.
/// Runtime: `UndefinedVariable`, `InvalidEvaluationOffset`, `ZeroDivision`,
/// `NegativeRoot`.
///
/// The first error anywhere in the pipeline aborts the whole evaluation;
/// rendering a message for the user is the caller's business.
#[derive(Clone, Debug)]
pub enum Error {
    UndefinedVariable(Vec<u8>),
    InvalidCharacter(char),
    InvalidEvaluationOffset,
    InvalidTerminal,
    InvalidItem,
    ExpectedValued,
    ExpectedOperator,
    MismatchedBracket,
    EmptyBrackets,
    InvalidCoalesce,
    ZeroDivision,
    NegativeRoot,
}

impl PartialEq for Error {
    fn eq(&self, other: &Error) -> (r: bool) {
        match (self, other) {
            (Error::UndefinedVariable(a), Error::UndefinedVariable(b)) => eq_bytes(a, b),
            (Error::InvalidCharacter(a), Error::InvalidCharacter(b)) => a == b,
            (Error::InvalidEvaluationOffset, Error::InvalidEvaluationOffset) => true,
            (Error::InvalidTerminal, Error::InvalidTerminal) => true,
            (Error::InvalidItem, Error::InvalidItem) => true,
            (Error::ExpectedValued, Error::ExpectedValued) => true,
            (Error::ExpectedOperator, Error::ExpectedOperator) => true,
            (Error::MismatchedBracket, Error::MismatchedBracket) => true,
            (Error::EmptyBrackets, Error::EmptyBrackets) => true,
            (Error::InvalidCoalesce, Error::InvalidCoalesce) => true,
            (Error::ZeroDivision, Error::ZeroDivision) => true,
            (Error::NegativeRoot, Error::NegativeRoot) => true,
            _ => false,
        }
    }
}

impl vstd::std_specs::cmp::PartialEqSpecImpl for Error {
    open spec fn obeys_eq_spec() -> bool {
        true
    }

    open spec fn eq_spec(&self, other: &Error) -> bool {
        match (self, other) {
            (Error::UndefinedVariable(a), Error::UndefinedVariable(b)) => a@ == b@,
            _ => *self == *other,
        }
    }
}

/// Whether two byte strings hold the same bytes.
pub fn eq_bytes(a: &[u8], b: &[u8]) -> (r: bool)
    ensures
        r == (a@ == b@),
{
    if a.len() != b.len() {
        assert(a@ != b@) by {
            assert(a@.len() != b@.len());
        }
        return false;
    }
    let mut i: usize = 0;
    while i < a.len()
        invariant
            i <= a.len(),
            a.len() == b.len(),
            forall|j: int| 0 <= j < i ==> a@[j] == b@[j],
        decreases a.len() - i,
    {
        if a[i] != b[i] {
            return false;
        }
        i += 1;
    }
    assert(a@ =~= b@);
    true
}

} // verus!
