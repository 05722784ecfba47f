//! Byte ranges of the source text, by offset and length.
use vstd::prelude::*;

verus! {

/// `len` bytes of the source from `offset`.
#[derive(Debug, PartialEq, Eq, Structural, PartialOrd, Ord, Clone, Copy)]
pub struct Span {
    offset: usize,
    len: usize,
}

impl Span {
    pub closed spec fn offset_spec(self) -> nat {
        self.offset as nat
    }

    pub closed spec fn len_spec(self) -> nat {
        self.len as nat
    }

    pub open spec fn end_spec(self) -> int {
        (self.offset_spec() + self.len_spec()) as int
    }

    /// Two spans are equal exactly when their offsets and lengths are.
    pub proof fn lemma_eq(a: Span, b: Span)
        ensures
            (a.offset_spec() == b.offset_spec() && a.len_spec() == b.len_spec()) <==> a == b,
    {
    }

    pub fn new(offset: usize, len: usize) -> (s: Self)
        ensures
            s.offset_spec() == offset,
            s.len_spec() == len,
    {
        Self { offset, len }
    }

    pub fn offset(&self) -> (r: usize)
        ensures
            r == self.offset_spec(),
    {
        self.offset
    }

    pub fn len(&self) -> (r: usize)
        ensures
            r == self.len_spec(),
    {
        self.len
    }

    pub fn end(&self) -> (r: usize)
        requires
            self.end_spec() <= usize::MAX,
        ensures
            r == self.end_spec(),
    {
        self.offset + self.len
    }

    /// The least span that covers both spans: from the smaller offset to
    /// the larger end.
    pub fn join(self, other: Span) -> (r: Self)
        requires
            self.end_spec() <= usize::MAX,
            other.end_spec() <= usize::MAX,
        ensures
            r.offset_spec() == if self.offset_spec() <= other.offset_spec() { self.offset_spec() } else { other.offset_spec() },
            r.end_spec() == if self.end_spec() >= other.end_spec() { self.end_spec() } else { other.end_spec() },
    {
        let start: usize = if self.offset() <= other.offset() { self.offset() } else { other.offset() };
        let e1: usize = self.end();
        let e2: usize = other.end();
        let end: usize = if e1 >= e2 { e1 } else { e2 };
        Self { offset: start, len: end - start }
    }
}

} // verus!
