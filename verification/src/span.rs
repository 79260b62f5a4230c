//! Spans of text: a start offset and a length.

use std::ops::Range;
use vstd::prelude::*;
use vstd::string::*;

use crate::text::{decimal, decimal_spec};

verus! {

/// The start offset and length of a node, token or trivia.
#[derive(Copy, Clone, Debug, Default, Eq, PartialEq, Hash, Ord, PartialOrd, Structural)]
pub struct TextSpan {
    start: usize,
    length: usize,
}

impl TextSpan {
    pub closed spec fn start_spec(self) -> usize {
        self.start
    }

    pub closed spec fn length_spec(self) -> usize {
        self.length
    }

    /// A span is its start offset and its length: two spans that agree on
    /// both are the same span.
    pub proof fn lemma_span_ext(a: Self, b: Self)
        requires
            a.start_spec() == b.start_spec(),
            a.length_spec() == b.length_spec(),
        ensures
            a == b,
    {
    }

    /// The end offset of the span.
    pub open spec fn end_spec(self) -> int {
        self.start_spec() + self.length_spec()
    }

    /// Creates a span with the given start offset and length.
    pub fn new(start: usize, length: usize) -> (s: Self)
        ensures
            s.start_spec() == start,
            s.length_spec() == length,
    {
        TextSpan { start, length }
    }

    /// Creates the span from the start offset to the end offset, which may
    /// not come before the start.
    pub fn from_bounds(start: usize, end: usize) -> (s: Self)
        requires
            end >= start,
        ensures
            s.start_spec() == start,
            s.end_spec() == end,
    {
        let length = end - start;
        TextSpan { start, length }
    }

    /// Creates the span from the start of the first span to the end of the
    /// second, which may not come before it.
    pub fn from_spans(start: Self, end: Self) -> (s: Self)
        requires
            end.end_spec() <= usize::MAX,
            end.end_spec() >= start.start_spec(),
        ensures
            s.start_spec() == start.start_spec(),
            s.end_spec() == end.end_spec(),
    {
        Self::from_bounds(start.start(), end.end())
    }

    /// Creates an empty span at the given offset.
    pub fn zero_width(start: usize) -> (s: Self)
        ensures
            s.start_spec() == start,
            s.length_spec() == 0,
    {
        Self::new(start, 0)
    }

    /// The start offset of the span.
    pub fn start(&self) -> (r: usize)
        ensures
            r == self.start_spec(),
    {
        self.start
    }

    /// The length of the span.
    pub fn length(&self) -> (r: usize)
        ensures
            r == self.length_spec(),
    {
        self.length
    }

    /// The end offset of the span.
    pub fn end(&self) -> (r: usize)
        requires
            self.end_spec() <= usize::MAX,
        ensures
            r == self.end_spec(),
    {
        self.start + self.length
    }

    /// Returns the span written as `start..end`.
    pub fn to_display_string(&self) -> (s: String)
        requires
            self.end_spec() <= usize::MAX,
        ensures
            s@ == decimal_spec(self.start_spec() as nat) + ".."@ + decimal_spec(self.end_spec() as nat),
    {
        let mut s = decimal(self.start);
        s.append("..");
        let e = decimal(self.end());
        s.append(e.as_str());
        proof {
            reveal_strlit("..");
        }
        s
    }

    /// Creates the span of the given range; a range whose end comes before
    /// its start gives an empty span.
    pub fn from_range(range: Range<usize>) -> (s: Self)
        ensures
            s.start_spec() == range.start,
            s.length_spec() == (if range.end >= range.start {
                range.end - range.start
            } else {
                0
            }),
    {
        let length = if range.end >= range.start {
            range.end - range.start
        } else {
            0
        };
        TextSpan { start: range.start, length }
    }
}

impl From<Range<usize>> for TextSpan {
    /// The span of the given range; a range whose end comes before its start
    /// gives an empty span.
    fn from(range: Range<usize>) -> (s: Self)
        ensures
            s.start_spec() == range.start,
            s.length_spec() == (if range.end >= range.start {
                range.end - range.start
            } else {
                0
            }),
    {
        Self::from_range(range)
    }
}

impl vstd::std_specs::convert::FromSpecImpl<Range<usize>> for TextSpan {
    open spec fn obeys_from_spec() -> bool {
        true
    }

    closed spec fn from_spec(range: Range<usize>) -> TextSpan {
        TextSpan {
            start: range.start,
            length: if range.end >= range.start {
                (range.end - range.start) as usize
            } else {
                0
            },
        }
    }
}

} // verus!
