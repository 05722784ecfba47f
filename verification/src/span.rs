//! Byte ranges of the source text.
use vstd::prelude::*;

verus! {

/// A range of the source text: `length` bytes from offset `start`.
#[derive(Debug, Clone, Copy, Hash, PartialEq, Eq, Structural, PartialOrd, Ord)]
pub struct Span {
    start: usize,
    length: usize,
}

/// A value together with the span of source text it came from.
#[derive(Debug, Clone, Copy, PartialEq, Hash)]
pub struct Spanned<T> {
    pub node: T,
    pub span: Span,
}

impl<T> Spanned<T> {
    /// Pairs `node` with `span`.
    pub fn new(node: T, span: Span) -> (s: Self)
        ensures
            s.node == node,
            s.span == span,
    {
        Spanned { node, span }
    }
}

impl Span {
    /// The offset of the first byte.
    pub closed spec fn start_spec(self) -> nat {
        self.start as nat
    }

    /// The number of bytes.
    pub closed spec fn len_spec(self) -> nat {
        self.length as nat
    }

    /// The offset one past the last byte.
    pub open spec fn end_spec(self) -> int {
        (self.start_spec() + self.len_spec()) as int
    }

    /// The span from offset `start` up to offset `end`.
    pub closed spec fn between(start: nat, end: nat) -> Span {
        Span { start: start as usize, length: (end - start) as usize }
    }

    /// Every span is the one between its offsets.
    pub proof fn lemma_between(s: Span)
        ensures
            s == Span::between(s.start_spec(), s.end_spec() as nat),
    {
    }

    /// Two spans are equal exactly when their offsets and lengths are.
    pub proof fn lemma_eq(a: Span, b: Span)
        ensures
            (a.start_spec() == b.start_spec() && a.len_spec() == b.len_spec()) <==> a == b,
    {
    }

    /// The span of `length` bytes from `start`.
    pub fn new(start: usize, length: usize) -> (s: Self)
        ensures
            s.start_spec() == start,
            s.len_spec() == length,
    {
        Span { start, length }
    }

    /// The bytes of `text` that `span` covers.
    pub fn retrieve_slice<'a>(text: &'a [u8], span: &Self) -> (r: &'a [u8])
        requires
            span.end_spec() <= text@.len(),
        ensures
            r@ == text@.subrange(span.start_spec() as int, span.end_spec()),
    {
        let n: usize = text.len();
        let lo: usize = span.start();
        let hi: usize = span.end();
        &text[lo..hi]
    }

    /// A placeholder span that is meant to be thrown away.
    pub fn dummy() -> (s: Self)
        ensures
            s.start_spec() == 0,
            s.len_spec() == 0,
    {
        Self::new(0, 0)
    }

    /// The offset of the first byte.
    pub fn start(&self) -> (r: usize)
        ensures
            r == self.start_spec(),
    {
        self.start
    }

    /// The number of bytes.
    pub fn len(&self) -> (r: usize)
        ensures
            r == self.len_spec(),
    {
        self.length
    }

    /// The offset one past the last byte.
    pub fn end(&self) -> (r: usize)
        requires
            self.end_spec() <= usize::MAX,
        ensures
            r == self.end_spec(),
    {
        self.length + self.start
    }

    /// The least span that covers both `self` and `other`.
    pub open spec fn join_spec(self, other: Span) -> (nat, nat) {
        let lo = if self.start_spec() <= other.start_spec() { self.start_spec() } else { other.start_spec() };
        let hi = if self.end_spec() >= other.end_spec() { self.end_spec() } else { other.end_spec() };
        (lo, (hi - lo) as nat)
    }

    /// The span that `join` gives: the one of `join_spec`.
    pub closed spec fn joined(self, other: Span) -> Span {
        let (s, l) = self.join_spec(other);
        Span { start: s as usize, length: l as usize }
    }

    /// The least span that covers both `self` and `other`.
    pub fn join(self, other: Span) -> (r: Span)
        requires
            self.end_spec() <= usize::MAX,
            other.end_spec() <= usize::MAX,
        ensures
            (r.start_spec(), r.len_spec()) == self.join_spec(other),
            r == self.joined(other),
            r.end_spec() <= usize::MAX,
    {
        let lo: usize = if self.start <= other.start { self.start } else { other.start };
        let e1: usize = self.end();
        let e2: usize = other.end();
        let hi: usize = if e1 >= e2 { e1 } else { e2 };
        Span { start: lo, length: hi - lo }
    }
}

/// Joining is commutative.
pub proof fn lemma_join_commutative(a: Span, b: Span)
    ensures
        a.join_spec(b) == b.join_spec(a),
{
}

/// The joined span covers both spans and is the least such span.
pub proof fn lemma_join_covers(a: Span, b: Span)
    ensures
        ({
            let (s, l) = a.join_spec(b);
            &&& s <= a.start_spec() && a.end_spec() <= s + l
            &&& s <= b.start_spec() && b.end_spec() <= s + l
            &&& (s == a.start_spec() || s == b.start_spec())
            &&& (s + l == a.end_spec() || s + l == b.end_spec())
        }),
{
}

/// Joining a span with itself gives the same span.
pub proof fn lemma_join_idempotent(a: Span)
    ensures
        a.join_spec(a) == (a.start_spec(), a.len_spec()),
{
}

} // verus!
