//! Positions in the flattened coordinate space, and half-open ranges of them.

use vstd::prelude::*;

verus! {

/// A small, `Copy` value representing an absolute position in the flattened
/// coordinate space of a registry of source files.
#[derive(Copy, Clone, PartialEq, Eq, Structural, Hash, Debug, Default)]
pub struct Pos(pub u32);

impl Pos {
    /// The position `offset` bytes past this one.
    pub fn add_offset(self, offset: u64) -> (r: Pos)
        requires
            self.0 + offset <= u32::MAX,
        ensures
            r.0 == self.0 + offset,
    {
        Pos(self.0 + (offset as u32))
    }

    /// The distance in bytes from `other` (which must not lie past `self`).
    pub fn offset_from(self, other: Pos) -> (r: u64)
        requires
            other.0 <= self.0,
        ensures
            r == self.0 - other.0,
    {
        (self.0 - other.0) as u64
    }
}

/// A half-open range `[low, high)` of positions within a registry.
#[derive(Copy, Clone, PartialEq, Eq, Structural, Hash, Debug)]
pub struct Span {
    /// The position of the first byte of the span.
    pub low: Pos,
    /// The position one past the last byte of the span.
    pub high: Pos,
}

impl Span {
    /// A span is well formed when its upper bound does not precede its lower
    /// bound; empty spans (`high == low`) are legal and denote a point.
    pub open spec fn wf(self) -> bool {
        self.low.0 <= self.high.0
    }

    /// The length of the span, as a mathematical integer.
    pub open spec fn spec_len(self) -> int {
        self.high.0 - self.low.0
    }

    /// True when the absolute position `p` lies within the span, the upper
    /// bound included (a file's span owns the position just past its text).
    pub open spec fn spec_contains_pos(self, p: int) -> bool {
        self.low.0 <= p <= self.high.0
    }

    /// Makes a span from offsets relative to the start of this span.
    pub fn subspan(&self, begin: u64, end: u64) -> (r: Span)
        requires
            begin <= end,
            self.low.0 + end <= self.high.0,
        ensures
            r.low.0 == self.low.0 + begin,
            r.high.0 == self.low.0 + end,
            r.wf(),
    {
        Span { low: Pos(self.low.0 + (begin as u32)), high: Pos(self.low.0 + (end as u32)) }
    }

    /// Checks if `other` is contained within this span (non-strictly).
    pub fn contains(&self, other: Span) -> (r: bool)
        ensures
            r == (self.low.0 <= other.low.0 && other.high.0 <= self.high.0),
    {
        self.low.0 <= other.low.0 && self.high.0 >= other.high.0
    }

    /// The position of the first byte of the span.
    pub fn low(&self) -> (r: Pos)
        ensures
            r == self.low,
    {
        self.low
    }

    /// The position one past the last byte of the span.
    pub fn high(&self) -> (r: Pos)
        ensures
            r == self.high,
    {
        self.high
    }

    /// The length in bytes of the text of the span.
    pub fn len(&self) -> (r: u64)
        requires
            self.wf(),
        ensures
            r == self.spec_len(),
    {
        (self.high.0 - self.low.0) as u64
    }

    /// Checks whether the span is empty.
    pub fn is_empty(&self) -> (r: bool)
        requires
            self.wf(),
        ensures
            r == (self.spec_len() == 0),
    {
        self.len() == 0
    }

    /// The smallest span that encloses both `self` and `other`.
    pub fn merge(&self, other: Span) -> (r: Span)
        ensures
            r.low.0 == if self.low.0 <= other.low.0 {
                self.low.0
            } else {
                other.low.0
            },
            r.high.0 == if self.high.0 >= other.high.0 {
                self.high.0
            } else {
                other.high.0
            },
            self.wf() && other.wf() ==> r.wf(),
    {
        let low = if self.low.0 <= other.low.0 {
            self.low
        } else {
            other.low
        };
        let high = if self.high.0 >= other.high.0 {
            self.high
        } else {
            other.high
        };
        Span { low, high }
    }
}

impl From<std::ops::Range<Pos>> for Span {
    /// A span is the half-open range of its start and end positions.
    fn from(r: std::ops::Range<Pos>) -> Span {
        Span { low: r.start, high: r.end }
    }
}

impl vstd::std_specs::convert::FromSpecImpl<std::ops::Range<Pos>> for Span {
    open spec fn obeys_from_spec() -> bool {
        true
    }

    open spec fn from_spec(r: std::ops::Range<Pos>) -> Span {
        Span { low: r.start, high: r.end }
    }
}

/// A span together with a value of arbitrary type, e.g. an AST node.
#[derive(Copy, Clone, PartialEq, Eq, Hash, Debug)]
pub struct Spanned<T> {
    pub node: T,
    pub span: Span,
}

impl<T> Spanned<T> {
    /// Maps a `Spanned<T>` to a `Spanned<U>` by applying the function to the
    /// node, leaving the span untouched.
    pub fn map_node<U, F: FnOnce(T) -> U>(self, op: F) -> (r: Spanned<U>)
        requires
            op.requires((self.node,)),
        ensures
            op.ensures((self.node,), r.node),
            r.span == self.span,
    {
        let node = op(self.node);
        Spanned { node, span: self.span }
    }
}

} // verus!
