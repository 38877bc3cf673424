//! Byte positions and half-open byte ranges within a single source input.

use vstd::prelude::*;

verus! {

/// A position within source text, as a byte offset.
#[derive(Clone, Copy, Debug, PartialEq, Eq, Structural)]
pub struct Pos(pub u32);

/// A half-open range of source text, `[start, end)`, in byte offsets.
#[derive(Clone, Copy, Debug, PartialEq, Eq, Structural)]
pub struct Span {
    pub start: Pos,
    pub end: Pos,
}

impl Span {
    /// True when the range is ordered: its start does not come after its end.
    pub open spec fn wf(&self) -> bool {
        self.start.0 <= self.end.0
    }

    /// An empty span that refers to no source location.
    pub fn none() -> (r: Span)
        ensures
            r.start.0 == 0,
            r.end.0 == 0,
            r.wf(),
    {
        Span { start: Pos(0), end: Pos(0) }
    }

    /// True if the span contains nothing.
    pub fn is_empty(&self) -> (r: bool)
        ensures
            r == (self.start.0 == self.end.0),
    {
        self.start.0 == self.end.0
    }

    /// The length of the span, in bytes.
    pub fn len(&self) -> (r: u32)
        requires
            self.wf(),
        ensures
            r == self.end.0 - self.start.0,
    {
        self.end.0 - self.start.0
    }

    /// Slice the span with a sub-range `start..end`, using the same indices
    /// that would slice the corresponding bytes.
    pub fn sub_span(&self, start: usize, end: usize) -> (r: Span)
        requires
            self.wf(),
            start <= end,
            self.start.0 + end <= self.end.0,
        ensures
            r.start.0 == self.start.0 + start,
            r.end.0 == self.start.0 + end,
            r.wf(),
    {
        Span {
            start: Pos(self.start.0 + start as u32),
            end: Pos(self.start.0 + end as u32),
        }
    }

    /// Slice the span with a sub-range `start..`, keeping its end.
    pub fn sub_from(&self, start: usize) -> (r: Span)
        requires
            self.wf(),
            self.start.0 + start <= self.end.0,
        ensures
            r.start.0 == self.start.0 + start,
            r.end == self.end,
            r.wf(),
    {
        Span { start: Pos(self.start.0 + start as u32), end: self.end }
    }

    /// Slice the span with a sub-range `..end`, keeping its start.
    pub fn sub_to(&self, end: usize) -> (r: Span)
        requires
            self.wf(),
            self.start.0 + end <= self.end.0,
        ensures
            r.start == self.start,
            r.end.0 == self.start.0 + end,
            r.wf(),
    {
        Span { start: self.start, end: Pos(self.start.0 + end as u32) }
    }
}

/// Trait for values that have a location in the source text.
pub trait HasPos {
    fn source_pos(&self) -> Span;
}

impl HasPos for Span {
    fn source_pos(&self) -> (r: Span)
        ensures
            r == *self,
    {
        *self
    }
}

} // verus!
