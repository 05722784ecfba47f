//! Tokens of the language and the stream abstraction that yields them.
use crate::span::Span;
use crate::text::literal_run;
use vstd::prelude::*;

verus! {

/// The kinds of token the lexer produces.
#[derive(Debug, Clone, Copy, PartialEq, Eq, Structural)]
pub enum TokenKind {
    /// A base 10 integer literal, e.g. `10`.
    IntegerLiteral,
    /// The boolean literal `true`.
    True,
    /// The boolean literal `false`.
    False,
    /// `+`
    Plus,
    /// `-`
    Minus,
    /// `*`
    Star,
    /// `/`
    Slash,
    /// `(`
    OpenParen,
    /// `)`
    CloseParen,
    /// A byte that starts no token; the byte is kept.
    Error(u8),
    /// The builtin `print` statement keyword.
    Print,
    /// `;`
    Semicolon,
    /// The `let` keyword that declares a variable.
    Let,
    /// `:`
    Colon,
    /// The type `int`.
    Int,
    /// The type `bool`.
    Bool,
    /// The type `double`.
    Double,
    /// The type `void`.
    Void,
    /// `=`
    Equal,
    /// `==`
    EqualEqual,
    /// `!=`
    BangEqual,
    /// `>`
    GreaterThan,
    /// `<`
    LessThan,
    /// `>=`
    GreaterEq,
    /// `<=`
    LessEq,
    /// A name.
    Identifier,
    /// `{`
    OpenBrace,
    /// `}`
    CloseBrace,
    /// `&&`
    And,
    /// `||`
    Or,
    /// `if`
    If,
    /// `else`
    Else,
    /// `while`
    While,
    /// `for`
    For,
    /// `break`
    Break,
    /// `continue`
    Continue,
    /// `++`
    PlusPlus,
    /// `--`
    MinusMinus,
    /// The end of the source.
    Eof,
}

impl TokenKind {
    /// The truth value of a boolean literal token.
    pub fn to_bool(self) -> (b: bool)
        requires
            self is True || self is False,
        ensures
            b == (self is True),
    {
        match self {
            TokenKind::True => true,
            _ => false,
        }
    }
}

/// A token: its kind, the span of its text, and the 0-based line and column
/// of its first byte.
#[derive(Debug, PartialEq, Eq, Clone, Copy, Structural)]
pub struct Token {
    pub kind: TokenKind,
    pub span: Span,
    pub line: usize,
    pub column: usize,
}

impl Token {
    pub fn new(kind: TokenKind, span: Span, line: usize, column: usize) -> (t: Self)
        ensures
            t.kind == kind,
            t.span == span,
            t.line == line,
            t.column == column,
    {
        Token { kind, span, line, column }
    }

    /// A placeholder token that is meant to be thrown away.
    pub fn dummy() -> (t: Self)
        ensures
            t.kind == TokenKind::Error(255),
            t.span.start_spec() == 0,
            t.span.len_spec() == 0,
            t.line == 0,
            t.column == 0,
    {
        Self::new(TokenKind::Error(255), Span::dummy(), 0, 0)
    }
}

/// A token lies in `text`: its span ends inside it, and an integer
/// literal's span is a non-empty, whole run of decimal digits.
pub open spec fn token_in_text(t: Token, text: Seq<u8>) -> bool {
    &&& t.span.end_spec() <= text.len()
    &&& t.kind is IntegerLiteral ==> {
        &&& t.span.len_spec() > 0
        &&& literal_run(text, t.span.start_spec() as int, t.span.end_spec())
    }
}

/// A source of tokens that ends with `Eof`.
pub trait TokenStream: Sized {
    /// The source text the stream reads.
    spec fn text(&self) -> Seq<u8>;

    /// The consistency of the stream's state.
    spec fn stream_inv(&self) -> bool;

    /// A measure of what is left to read; each token but `Eof` lowers it.
    spec fn remaining(&self) -> nat;

    /// The tokens to come: `ahead(0)` is the one `next` gives.
    spec fn ahead(&self, k: nat) -> Token;

    /// The next token.
    fn next(&mut self) -> (t: Token)
        requires
            old(self).stream_inv(),
        ensures
            t == old(self).ahead(0),
            forall|k: nat| #[trigger] final(self).ahead(k) == old(self).ahead(k + 1),
            final(self).stream_inv(),
            final(self).text() == old(self).text(),
            final(self).remaining() <= old(self).remaining(),
            t.kind != TokenKind::Eof ==> final(self).remaining() < old(self).remaining(),
            token_in_text(t, old(self).text()),
    ;

    /// All tokens up to, and without, the first `Eof`: those the stream had
    /// to come before it; the stream is left past that `Eof`.
    fn collect(&mut self) -> (v: Vec<Token>)
        requires
            old(self).stream_inv(),
        ensures
            final(self).stream_inv(),
            final(self).text() == old(self).text(),
            forall|i: int| 0 <= i < v@.len() ==> (#[trigger] v@[i]).kind != TokenKind::Eof
                && token_in_text(v@[i], old(self).text()) && v@[i] == old(self).ahead(i as nat),
            old(self).ahead(v@.len() as nat).kind is Eof,
            forall|k: nat| #[trigger] final(self).ahead(k) == old(self).ahead(v@.len() + 1 + k),
    {
        let mut v: Vec<Token> = Vec::new();
        loop
            invariant_except_break
                self.stream_inv(),
                self.text() == old(self).text(),
                forall|i: int| 0 <= i < v@.len() ==> (#[trigger] v@[i]).kind != TokenKind::Eof
                    && token_in_text(v@[i], old(self).text()) && v@[i] == old(self).ahead(i as nat),
                forall|k: nat| #[trigger] self.ahead(k) == old(self).ahead(v@.len() + k),
            ensures
                self.stream_inv(),
                self.text() == old(self).text(),
                forall|i: int| 0 <= i < v@.len() ==> (#[trigger] v@[i]).kind != TokenKind::Eof
                    && token_in_text(v@[i], old(self).text()) && v@[i] == old(self).ahead(i as nat),
                old(self).ahead(v@.len() as nat).kind is Eof,
                forall|k: nat| #[trigger] self.ahead(k) == old(self).ahead(v@.len() + 1 + k),
            decreases self.remaining(),
        {
            let ghost before = *self;
            let t = self.next();
            proof {
                assert(t == old(self).ahead(v@.len() + 0));
            }
            if t.kind == TokenKind::Eof {
                proof {
                    assert forall|k: nat| #[trigger] self.ahead(k) == old(self).ahead(v@.len() + 1 + k) by {
                        assert(self.ahead(k) == before.ahead(k + 1));
                        assert(before.ahead(k + 1) == old(self).ahead(v@.len() + (k + 1)));
                    }
                }
                break;
            }
            let ghost n = v@.len();
            v.push(t);
            proof {
                assert forall|k: nat| #[trigger] self.ahead(k) == old(self).ahead(v@.len() + k) by {
                    assert(self.ahead(k) == before.ahead(k + 1));
                    assert(before.ahead(k + 1) == old(self).ahead(n + (k + 1)));
                }
            }
        }
        v
    }
}

} // verus!
