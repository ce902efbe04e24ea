//! Source positions.

use vstd::prelude::*;

verus! {

/// A range of characters `[lo, hi)` in the source, with the line on which it
/// starts.
#[derive(Clone, Copy, Debug, PartialEq, Eq, Structural)]
pub struct Span {
    /// Position of the first character.
    pub lo: usize,
    /// Position after the last character.
    pub hi: usize,
    /// Line that holds the character at `lo`.
    pub line: usize,
}

impl Span {
    /// The span of the same start and line that ends at `hi`.
    pub open spec fn spec_extend(self, hi: usize) -> Span {
        Span { lo: self.lo, hi, line: self.line }
    }

    /// The smallest span that starts where `self` starts and ends where
    /// `other` ends.
    pub open spec fn spec_merge(self, other: Span) -> Span {
        self.spec_extend(other.hi)
    }

    pub fn new(lo: usize, hi: usize, line: usize) -> (s: Span)
        ensures
            s == (Span { lo, hi, line }),
    {
        Span { lo, hi, line }
    }

    pub fn extend(self, hi: usize) -> (s: Span)
        ensures
            s == self.spec_extend(hi),
    {
        Span { lo: self.lo, hi, line: self.line }
    }
}

} // verus!
