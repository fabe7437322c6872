//! A cursor over an immutable byte buffer.

use vstd::prelude::*;
use vstd::slice::slice_subrange;
use vstd::utf8::encode_utf8;
use crate::util::contains_byte;

verus! {

/// The buffer a document is parsed from: lent by the caller, or owned by the
/// document itself.
#[derive(Debug)]
pub enum Source<'a> {
    Borrowed(&'a [u8]),
    Owned(String),
}

impl<'a> View for Source<'a> {
    type V = Seq<u8>;

    open spec fn view(&self) -> Seq<u8> {
        match self {
            Source::Borrowed(s) => s@,
            Source::Owned(text) => encode_utf8(text@),
        }
    }
}

impl<'a> Source<'a> {
    pub fn as_slice(&self) -> (r: &[u8])
        ensures
            r@ == self@,
    {
        match self {
            Source::Borrowed(s) => s,
            Source::Owned(text) => text.as_str().as_bytes(),
        }
    }

    pub fn len(&self) -> (n: usize)
        ensures
            n == self@.len(),
    {
        self.as_slice().len()
    }
}

/// A read position in a source buffer. The position never passes the end.
#[derive(Debug)]
pub struct Stream<'a> {
    data: Source<'a>,
    len: usize,
    idx: usize,
}

impl<'a> Stream<'a> {
    /// The whole buffer.
    pub closed spec fn bytes(&self) -> Seq<u8> {
        self.data@
    }

    /// The read position.
    pub closed spec fn pos(&self) -> int {
        self.idx as int
    }

    /// The length that the cursor keeps is that of the buffer.
    pub closed spec fn consistent(&self) -> bool {
        self.len == self.data@.len()
    }

    /// The position is inside the buffer or at its end.
    pub open spec fn wf(&self) -> bool {
        &&& self.consistent()
        &&& 0 <= self.pos() <= self.bytes().len() <= usize::MAX
    }

    /// A cursor at the start of `data`.
    pub fn new(data: Source<'a>) -> (s: Stream<'a>)
        ensures
            s.wf(),
            s.bytes() == data@,
            s.pos() == 0,
    {
        let len = data.len();
        Stream { data, len, idx: 0 }
    }

    pub fn data(&self) -> (r: &[u8])
        ensures
            r@ == self.bytes(),
    {
        self.data.as_slice()
    }

    pub fn len(&self) -> (n: usize)
        requires
            self.wf(),
        ensures
            n == self.bytes().len(),
    {
        self.len
    }

    pub fn position(&self) -> (p: usize)
        ensures
            p == self.pos(),
    {
        self.idx
    }

    pub fn is_eof(&self) -> (r: bool)
        requires
            self.wf(),
        ensures
            r == (self.pos() >= self.bytes().len()),
    {
        self.idx >= self.len
    }

    /// The byte under the cursor, if there is one.
    pub fn current_cpy(&self) -> (r: Option<u8>)
        ensures
            r == if 0 <= self.pos() < self.bytes().len() {
                Some(self.bytes()[self.pos()])
            } else {
                None
            },
    {
        let data = self.data.as_slice();
        if self.idx < data.len() {
            Some(data[self.idx])
        } else {
            None
        }
    }

    /// The byte `offset` places after the cursor, if there is one.
    pub fn peek_at(&self, offset: usize) -> (r: Option<u8>)
        ensures
            r == if 0 <= self.pos() + offset < self.bytes().len() {
                Some(self.bytes()[self.pos() + offset])
            } else {
                None
            },
    {
        let data = self.data.as_slice();
        if offset < data.len() && self.idx < data.len() - offset {
            Some(data[self.idx + offset])
        } else {
            None
        }
    }

    /// Moves the cursor to `pos`.
    pub fn seek(&mut self, pos: usize)
        requires
            old(self).wf(),
            pos <= old(self).bytes().len(),
        ensures
            final(self).bytes() == old(self).bytes(),
            final(self).pos() == pos,
            final(self).wf(),
    {
        self.idx = pos;
    }

    /// Steps over one byte; at the end of the buffer the cursor stays.
    pub fn advance(&mut self)
        requires
            old(self).wf(),
        ensures
            final(self).bytes() == old(self).bytes(),
            final(self).pos() == step(old(self).bytes(), old(self).pos()),
            final(self).wf(),
    {
        if self.idx < self.len {
            self.idx += 1;
        }
    }

    /// Steps over `n` bytes, or to the end of the buffer if fewer are left.
    pub fn advance_by(&mut self, n: usize)
        requires
            old(self).wf(),
        ensures
            final(self).bytes() == old(self).bytes(),
            final(self).pos() == if old(self).pos() + n <= old(self).bytes().len() {
                old(self).pos() + n
            } else {
                old(self).bytes().len() as int
            },
            final(self).wf(),
    {
        let len = self.len;
        if n <= len - self.idx {
            self.idx += n;
        } else {
            self.idx = len;
        }
    }

    /// The bytes in `[from, to)`.
    pub fn slice(&self, from: usize, to: usize) -> (r: &[u8])
        requires
            from <= to <= self.bytes().len(),
        ensures
            r@ == self.bytes().subrange(from as int, to as int),
    {
        slice_subrange(self.data.as_slice(), from, to)
    }

    /// The bytes from `from` up to the cursor.
    pub fn slice_from(&self, from: usize) -> (r: &[u8])
        requires
            self.wf(),
            from <= self.pos(),
        ensures
            r@ == self.bytes().subrange(from as int, self.pos()),
    {
        slice_subrange(self.data.as_slice(), from, self.idx)
    }

    /// Steps over the byte under the cursor if it is `expect`, and says
    /// whether it did.
    pub fn expect_and_skip_cond(&mut self, expect: u8) -> (r: bool)
        requires
            old(self).wf(),
        ensures
            final(self).bytes() == old(self).bytes(),
            final(self).wf(),
            r == at(old(self).bytes(), old(self).pos(), expect),
            final(self).pos() == if r {
                old(self).pos() + 1
            } else {
                old(self).pos()
            },
    {
        let data = self.data.as_slice();
        if self.idx < data.len() && data[self.idx] == expect {
            self.idx += 1;
            true
        } else {
            false
        }
    }

    /// Steps over the byte under the cursor if it is `expect`, and returns it.
    pub fn expect_and_skip(&mut self, expect: u8) -> (r: Option<u8>)
        requires
            old(self).wf(),
        ensures
            final(self).bytes() == old(self).bytes(),
            final(self).wf(),
            r == if at(old(self).bytes(), old(self).pos(), expect) {
                Some(expect)
            } else {
                None
            },
            final(self).pos() == if r is Some {
                old(self).pos() + 1
            } else {
                old(self).pos()
            },
    {
        if self.expect_and_skip_cond(expect) {
            Some(expect)
        } else {
            None
        }
    }

    /// Steps over the byte under the cursor if it is one of `expect`, and
    /// returns it.
    pub fn expect_oneof_and_skip(&mut self, expect: &[u8]) -> (r: Option<u8>)
        requires
            old(self).wf(),
        ensures
            final(self).bytes() == old(self).bytes(),
            final(self).wf(),
            r == if old(self).pos() < old(self).bytes().len() && expect@.contains(
                old(self).bytes()[old(self).pos()],
            ) {
                Some(old(self).bytes()[old(self).pos()])
            } else {
                None
            },
            final(self).pos() == if r is Some {
                old(self).pos() + 1
            } else {
                old(self).pos()
            },
    {
        let data = self.data.as_slice();
        if self.idx < data.len() {
            let c = data[self.idx];
            if contains_byte(expect, c) {
                self.idx += 1;
                Some(c)
            } else {
                None
            }
        } else {
            None
        }
    }
}

/// The byte at `pos` exists and is `b`.
pub open spec fn at(src: Seq<u8>, pos: int, b: u8) -> bool {
    0 <= pos < src.len() && src[pos] == b
}

/// One byte further, but never past the end.
pub open spec fn step(src: Seq<u8>, pos: int) -> int {
    if pos < src.len() {
        pos + 1
    } else {
        pos
    }
}

} // verus!
