//! Half-open byte ranges into a source text.

use std::ops::Range;

use vstd::prelude::*;

verus! {

/// A half-open byte range `[start, end)` into a single source file.
#[derive(Debug, Clone, Copy, PartialEq, Eq, Structural, Hash)]
pub struct Span {
    pub start: usize,
    pub end: usize,
}

impl View for Span {
    type V = Span;

    open spec fn view(&self) -> Span {
        *self
    }
}

impl Span {
    /// A span whose start does not lie after its end.
    pub open spec fn ordered(self) -> bool {
        self.start <= self.end
    }

    /// The smallest span that covers both spans.
    pub open spec fn joined(self, other: Span) -> Span {
        Span {
            start: if other.start < self.start { other.start } else { self.start },
            end: if other.end > self.end { other.end } else { self.end },
        }
    }

    /// The span from `start` to `end`.
    pub fn new(start: usize, end: usize) -> (r: Self)
        requires
            start <= end,
        ensures
            r == (Span { start, end }),
    {
        Self { start, end }
    }

    /// The zero-length span at `at`.
    pub fn empty(at: usize) -> (r: Self)
        ensures
            r == (Span { start: at, end: at }),
    {
        Self { start: at, end: at }
    }

    /// The number of bytes covered; zero when the ends are reversed.
    pub fn len(&self) -> (r: usize)
        ensures
            r == (if self.end >= self.start { self.end - self.start } else { 0 }),
    {
        if self.end >= self.start {
            self.end - self.start
        } else {
            0
        }
    }

    /// Whether the span covers no byte.
    pub fn is_empty(&self) -> (r: bool)
        ensures
            r == (self.end <= self.start),
    {
        self.len() == 0
    }

    /// Smallest span covering both `self` and `other`.
    pub fn merge(self, other: Span) -> (r: Span)
        ensures
            r == self.joined(other),
    {
        Span {
            start: if other.start < self.start { other.start } else { self.start },
            end: if other.end > self.end { other.end } else { self.end },
        }
    }

    /// The same range as a standard `Range`.
    pub fn range(self) -> (r: Range<usize>)
        ensures
            r == (Range { start: self.start, end: self.end }),
    {
        Range { start: self.start, end: self.end }
    }
}

impl From<Span> for Range<usize> {
    fn from(s: Span) -> (r: Self) {
        s.range()
    }
}

impl vstd::std_specs::convert::FromSpecImpl<Span> for Range<usize> {
    open spec fn obeys_from_spec() -> bool {
        true
    }

    open spec fn from_spec(s: Span) -> Self {
        Range { start: s.start, end: s.end }
    }
}

/// Merging is commutative, associative and idempotent, and the merged span
/// covers both of its parts.
pub proof fn merge_laws(a: Span, b: Span, c: Span)
    ensures
        a.joined(b) == b.joined(a),
        a.joined(b).joined(c) == a.joined(b.joined(c)),
        a.joined(a) == a,
        a.joined(b).start <= a.start && a.end <= a.joined(b).end,
        a.joined(b).start <= b.start && b.end <= a.joined(b).end,
        a.ordered() && b.ordered() ==> a.joined(b).ordered(),
{
}

} // verus!
