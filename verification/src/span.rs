use vstd::prelude::*;

verus! {

/// Half-open byte range `[start, end)` into the input text. Every token,
/// tree node and error carries one, so that the caller can point at the
/// exact bytes that produced a unit or a failure.
#[derive(Copy, Clone, Debug, PartialEq, Eq, Structural)]
pub struct Span(pub usize, pub usize);

impl Span {
    pub fn byte_start(&self) -> (start: usize)
        ensures
            start == self.0,
    {
        let Span(byte_start, _) = self;
        *byte_start
    }

    pub fn byte_end(&self) -> (end: usize)
        ensures
            end == self.1,
    {
        let Span(_, byte_end) = self;
        *byte_end
    }
}

/// A value of any kind together with the byte range it came from.
#[derive(Copy, Clone, Debug)]
pub struct Spanned<T> {
    pub node: T,
    pub span: Span,
}

impl<T> Spanned<T> {
    pub fn new(node: T, span: Span) -> (spanned: Spanned<T>)
        ensures
            spanned == (Spanned { node, span }),
    {
        Spanned { node, span }
    }

    /// Replaces the carried value, keeping the byte range.
    pub fn map<R>(self, node: R) -> (spanned: Spanned<R>)
        ensures
            spanned == (Spanned { node, span: self.span }),
    {
        Spanned::new(node, self.span)
    }
}

} // verus!
