//! Byte ranges of the source buffer.

use vstd::prelude::*;
use vstd::slice::slice_subrange;

verus! {

/// A half-open byte range `[start, end)` of the source buffer.
///
/// Nodes never hold text of their own: they hold spans, and the text is
/// sliced out of the source when it is asked for.
#[derive(Clone, Copy, Debug, PartialEq, Eq, Hash)]
pub struct Span {
    pub start: usize,
    pub end: usize,
}

impl Span {
    /// The span lies inside a buffer of `len` bytes.
    pub open spec fn within(self, len: nat) -> bool {
        self.start <= self.end <= len
    }

    /// The bytes of `src` that the span covers.
    pub open spec fn of(self, src: Seq<u8>) -> Seq<u8> {
        src.subrange(self.start as int, self.end as int)
    }

    pub fn new(start: usize, end: usize) -> (s: Span)
        ensures
            s == (Span { start, end }),
    {
        Span { start, end }
    }

    /// Number of bytes covered; an inverted span covers none.
    pub fn len(&self) -> (n: usize)
        ensures
            n == if self.start <= self.end {
                self.end - self.start
            } else {
                0
            },
    {
        if self.start <= self.end {
            self.end - self.start
        } else {
            0
        }
    }

    pub fn is_empty(&self) -> (r: bool)
        ensures
            r == (self.start >= self.end),
    {
        self.start >= self.end
    }

    /// Slices the covered bytes out of `src`, without copying.
    pub fn slice<'a>(&self, src: &'a [u8]) -> (r: &'a [u8])
        requires
            self.within(src@.len()),
        ensures
            r@ == self.of(src@),
    {
        slice_subrange(src, self.start, self.end)
    }

    /// Like [`Span::slice`], for a span that may not fit the buffer.
    pub fn try_slice<'a>(&self, src: &'a [u8]) -> (r: Option<&'a [u8]>)
        ensures
            r is Some <==> self.within(src@.len()),
            r matches Some(s) ==> s@ == self.of(src@),
    {
        if self.start <= self.end && self.end <= src.len() {
            Some(slice_subrange(src, self.start, self.end))
        } else {
            None
        }
    }
}

/// The span `[start, end)` for positions that a buffer can have.
pub open spec fn span(start: int, end: int) -> Span {
    Span { start: start as usize, end: end as usize }
}

} // verus!
