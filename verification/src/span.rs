//! Byte-offset spans into the source buffer, and values paired with one.

use vstd::prelude::*;

verus! {

/// A half-open byte-offset range `[start, end)` into the source buffer.
///
/// A well-formed span for a buffer of length `n` satisfies
/// `start <= end <= n`.
#[derive(Copy, Clone, Debug, PartialEq, Eq, Structural)]
pub struct Span {
    pub start: usize,
    pub end: usize,
}

impl Span {
    /// Whether the span fits a buffer of `len` bytes.
    pub open spec fn wf(self, len: int) -> bool {
        self.start <= self.end <= len
    }
}

/// A value tagged with the source span it was produced from.
#[derive(Copy, Clone, Debug, PartialEq, Eq, Structural)]
pub struct Spanned<T> {
    pub value: T,
    pub span: Span,
}

} // verus!
