//! Byte-offset source locations attached to tokens and terms.
//!
//! A `Span` has no semantic role: it only records where in the source a
//! token or term came from, so that diagnostics can point at it.

use vstd::prelude::*;

verus! {

/// A half-open byte range `lo..hi` into the source, plus the line the
/// range starts on.
#[derive(Clone, Copy, Debug, PartialEq, Eq, Structural)]
pub struct Span {
    pub lo: usize,
    pub hi: usize,
    pub line: usize,
}

impl Span {
    /// A placeholder span for terms built programmatically rather than
    /// parsed from source.
    pub fn dummy() -> (s: Span)
        ensures
            s.lo == 0,
            s.hi == 0,
            s.line == 0,
    {
        Span { lo: 0, hi: 0, line: 0 }
    }

    /// The span covering everything from the start of `self` to the end
    /// of `other`.
    pub fn to(self, other: Span) -> (s: Span)
        ensures
            s.lo == self.lo,
            s.hi == other.hi,
            s.line == self.line,
    {
        Span { lo: self.lo, hi: other.hi, line: self.line }
    }
}

} // verus!
