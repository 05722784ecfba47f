//! Tokens of the arithmetic lexer and the stream abstraction over them.
use crate::span::Span;
use vstd::prelude::*;

verus! {

#[derive(Debug, Clone, Copy, PartialEq, Eq, Structural)]
pub enum TokenKind {
    /// A base 10 integer literal, e.g. `10`.
    IntegerLiteral,
    /// `+`
    Plus,
    /// `-`
    Minus,
    /// `*`
    Star,
    /// `/`
    Slash,
    /// `(`
    OpenParen,
    /// `)`
    CloseParen,
    /// A byte that starts no token.
    Error(u8),
    /// The builtin `print` statement keyword.
    Print,
    /// `;`
    Semicolon,
    /// The end of the source.
    Eof,
}

/// A token: kind, span, and the 0-based line and column where it starts.
#[derive(Debug, PartialEq, Eq, Clone, Copy, Structural)]
pub struct Token {
    pub kind: TokenKind,
    pub span: Span,
    pub line: usize,
    pub column: usize,
}

impl Token {
    pub fn new(kind: TokenKind, span: Span, line: usize, column: usize) -> (t: Self)
        ensures
            t.kind == kind,
            t.span == span,
            t.line == line,
            t.column == column,
    {
        Self { kind, span, line, column }
    }

    /// A placeholder token that is meant to be thrown away.
    pub fn dummy() -> (t: Self)
        ensures
            t.kind == TokenKind::Error(255),
            t.span.start_spec() == 0,
            t.span.len_spec() == 0,
            t.line == 0,
            t.column == 0,
    {
        Self::new(TokenKind::Error(255), Span::dummy(), 0, 0)
    }
}

/// A source of tokens that ends with `Eof`.
pub trait TokenStream: Sized {
    /// The consistency of the stream's state.
    spec fn stream_inv(&self) -> bool;

    /// A measure of what is left to read; each token but `Eof` lowers it.
    spec fn remaining(&self) -> nat;

    /// The source text the tokens are read from.
    spec fn text(&self) -> Seq<u8>;

    /// The tokens to come: `ahead(0)` is the one `next` gives.
    spec fn ahead(&self, k: nat) -> Token;

    /// The next token, whose span lies in the text.
    fn next(&mut self) -> (t: Token)
        requires
            old(self).stream_inv(),
        ensures
            t == old(self).ahead(0),
            forall|k: nat| #[trigger] final(self).ahead(k) == old(self).ahead(k + 1),
            final(self).stream_inv(),
            final(self).text() == old(self).text(),
            t.span.end_spec() <= final(self).text().len(),
            final(self).remaining() <= old(self).remaining(),
            t.kind != TokenKind::Eof ==> final(self).remaining() < old(self).remaining(),
    ;

    /// All tokens up to, and without, the first `Eof`: those the stream had
    /// to come before it; the stream is left past that `Eof`.
    fn collect(&mut self) -> (v: Vec<Token>)
        requires
            old(self).stream_inv(),
        ensures
            final(self).stream_inv(),
            final(self).text() == old(self).text(),
            forall|i: int| 0 <= i < v@.len() ==> (#[trigger] v@[i]).kind != TokenKind::Eof
                && v@[i] == old(self).ahead(i as nat),
            old(self).ahead(v@.len() as nat).kind is Eof,
            forall|k: nat| #[trigger] final(self).ahead(k) == old(self).ahead(v@.len() + 1 + k),
    {
        let mut v: Vec<Token> = Vec::new();
        loop
            invariant_except_break
                self.stream_inv(),
                self.text() == old(self).text(),
                forall|i: int| 0 <= i < v@.len() ==> (#[trigger] v@[i]).kind != TokenKind::Eof
                    && v@[i] == old(self).ahead(i as nat),
                forall|k: nat| #[trigger] self.ahead(k) == old(self).ahead(v@.len() + k),
            ensures
                self.stream_inv(),
                self.text() == old(self).text(),
                forall|i: int| 0 <= i < v@.len() ==> (#[trigger] v@[i]).kind != TokenKind::Eof
                    && v@[i] == old(self).ahead(i as nat),
                old(self).ahead(v@.len() as nat).kind is Eof,
                forall|k: nat| #[trigger] self.ahead(k) == old(self).ahead(v@.len() + 1 + k),
            decreases self.remaining(),
        {
            let ghost before = *self;
            let t = self.next();
            proof {
                assert(t == old(self).ahead(v@.len() + 0));
            }
            if t.kind == TokenKind::Eof {
                proof {
                    assert forall|k: nat| #[trigger] self.ahead(k) == old(self).ahead(v@.len() + 1 + k) by {
                        assert(self.ahead(k) == before.ahead(k + 1));
                        assert(before.ahead(k + 1) == old(self).ahead(v@.len() + (k + 1)));
                    }
                }
                break;
            }
            let ghost n = v@.len();
            v.push(t);
            proof {
                assert forall|k: nat| #[trigger] self.ahead(k) == old(self).ahead(v@.len() + k) by {
                    assert(self.ahead(k) == before.ahead(k + 1));
                    assert(before.ahead(k + 1) == old(self).ahead(n + (k + 1)));
                }
            }
        }
        v
    }
}

} // verus!
