//! The first lexer of the language: arithmetic, `print` and integer
//! literals, yielded one token at a time until the source ends.
use crate::parse::span::Span;
use crate::text::{
    ByteClass,
    count_newlines, is_alpha, is_alpha_spec, is_blank, is_blank_spec, is_digit, is_digit_spec,
    lemma_count_newlines_bound, lemma_scan_while, line_start, scan_while, CLOSE_PAREN, MINUS,
    NEWLINE, OPEN_PAREN, PLUS, SEMICOLON, SLASH, STAR,
};
use vstd::prelude::*;

verus! {

/// The kinds of token of this lexer.
#[derive(Debug, Clone, Copy, PartialEq, Eq, Structural)]
pub enum TokenType {
    IntegerLiteral,
    Plus,
    Minus,
    Star,
    Slash,
    OpenParen,
    CloseParen,
    Semicolon,
    Print,
    /// A byte that starts no token.
    Error(u8),
}

/// A token: kind, span, and the line and column where it starts.
#[derive(Debug, Clone, Copy, PartialEq, Eq, Structural)]
pub struct Token {
    pub kind: TokenType,
    pub span: Span,
    pub line: usize,
    pub column: usize,
}

/// The bytes of `print`.
pub open spec fn print_word() -> Seq<u8> {
    seq![112u8, 114u8, 105u8, 110u8, 116u8]
}

/// A word that the next token of `s` from `pos` reads, once blanks are
/// skipped, spells `print`: the only word this lexer knows.
pub open spec fn next_word_known(s: Seq<u8>, pos: int) -> bool {
    let p = scan_while(s, pos, ByteClass::Blank);
    p < s.len() && is_alpha_spec(s[p]) ==> s.subrange(p, scan_while(s, p, ByteClass::Alpha)) == print_word()
}

/// The kind and the length of the token that starts at offset `p`, a byte
/// that is not blank.
pub open spec fn scan(s: Seq<u8>, p: int) -> (TokenType, int) {
    let c = s[p];
    if c == PLUS {
        (TokenType::Plus, 1)
    } else if c == MINUS {
        (TokenType::Minus, 1)
    } else if c == STAR {
        (TokenType::Star, 1)
    } else if c == SLASH {
        (TokenType::Slash, 1)
    } else if c == OPEN_PAREN {
        (TokenType::OpenParen, 1)
    } else if c == CLOSE_PAREN {
        (TokenType::CloseParen, 1)
    } else if c == SEMICOLON {
        (TokenType::Semicolon, 1)
    } else if is_digit_spec(c) {
        (TokenType::IntegerLiteral, scan_while(s, p, ByteClass::Digit) - p)
    } else if is_alpha_spec(c) {
        (TokenType::Print, scan_while(s, p, ByteClass::Alpha) - p)
    } else {
        (TokenType::Error(c), 1)
    }
}

pub struct Lexer<'a> {
    current: usize,
    start: usize,
    line: usize,
    column: usize,
    start_column: usize,
    pub source: &'a [u8],
}

impl<'a> Lexer<'a> {
    /// The source text.
    pub closed spec fn text(&self) -> Seq<u8> {
        self.source@
    }

    /// The offset of the next byte to read.
    pub closed spec fn position(&self) -> int {
        self.current as int
    }

    /// The position is in the source, is not inside a word, and the line
    /// and column are those of the position.
    pub closed spec fn inv(&self) -> bool {
        &&& self.current <= self.source@.len()
        &&& self.start <= self.current
        &&& self.line == count_newlines(self.source@, self.current as int)
        &&& self.column == self.current - line_start(self.source@, self.current as int)
        &&& (0 < self.current < self.source@.len() ==> !(is_alpha_spec(self.source@[self.current - 1])
            && is_alpha_spec(self.source@[self.current as int])))
    }

    pub fn new(source: &'a [u8]) -> (l: Self)
        ensures
            l.inv(),
            l.text() == source@,
            l.position() == 0,
    {
        Self { current: 0, start: 0, line: 0, column: 0, start_column: 0, source }
    }

    fn advance(&mut self)
        requires
            old(self).current < old(self).source@.len(),
            old(self).current <= old(self).source@.len(),
            old(self).line == count_newlines(old(self).source@, old(self).current as int),
            old(self).column == old(self).current - line_start(old(self).source@, old(self).current as int),
        ensures
            final(self).source == old(self).source,
            final(self).current == old(self).current + 1,
            final(self).start == old(self).start,
            final(self).start_column == old(self).start_column,
            final(self).line == count_newlines(final(self).source@, final(self).current as int),
            final(self).column == final(self).current - line_start(final(self).source@, final(self).current as int),
            old(self).source@[old(self).current as int] != NEWLINE ==> final(self).line == old(self).line,
    {
        proof {
            lemma_count_newlines_bound(self.source@, self.current as int);
        }
        if self.source[self.current] == NEWLINE {
            self.line = self.line + 1;
            self.column = 0;
        } else {
            self.column = self.column + 1;
        }
        self.current = self.current + 1;
    }

    fn create_token(&self, kind: TokenType) -> (t: Token)
        requires
            self.start <= self.current,
        ensures
            t.kind == kind,
            t.span.offset_spec() == self.start,
            t.span.len_spec() == self.current - self.start,
            t.line == self.line,
            t.column == self.start_column,
    {
        Token { kind, span: Span::new(self.start, self.current - self.start), line: self.line, column: self.start_column }
    }

    /// The next token, or `None` at the end of the source. Blank bytes are
    /// skipped; a byte that starts no token gives an `Error` token.
    pub fn next(&mut self) -> (r: Option<Token>)
        requires
            old(self).inv(),
            next_word_known(old(self).text(), old(self).position()),
        ensures
            final(self).inv(),
            final(self).text() == old(self).text(),
            ({
                let s = old(self).text();
                let p = scan_while(s, old(self).position(), ByteClass::Blank);
                if p >= s.len() {
                    r is None && final(self).position() == s.len()
                } else {
                    let (k, n) = scan(s, p);
                    &&& r is Some
                    &&& r->0.kind == k
                    &&& r->0.span.offset_spec() == p
                    &&& r->0.span.len_spec() == n
                    &&& r->0.line == count_newlines(s, p)
                    &&& r->0.column == p - line_start(s, p)
                    &&& final(self).position() == p + n
                    &&& n > 0
                }
            }),
    {
        let ghost s = self.source@;
        let ghost c0 = self.current as int;
        proof {
            lemma_scan_while(s, c0, ByteClass::Blank);
        }
        while self.current < self.source.len() && is_blank(self.source[self.current])
            invariant
                self.inv(),
                self.source@ == s,
                scan_while(s, c0, ByteClass::Blank) == scan_while(s, self.current as int, ByteClass::Blank),
            decreases s.len() - self.current,
        {
            self.advance();
        }
        if self.current >= self.source.len() {
            return None;
        }
        self.start = self.current;
        self.start_column = self.column;
        let p: usize = self.current;
        let c: u8 = self.source[p];
        assert(!is_blank_spec(c));
        self.advance();
        let kind: TokenType = if c == PLUS {
            TokenType::Plus
        } else if c == MINUS {
            TokenType::Minus
        } else if c == STAR {
            TokenType::Star
        } else if c == SLASH {
            TokenType::Slash
        } else if c == OPEN_PAREN {
            TokenType::OpenParen
        } else if c == CLOSE_PAREN {
            TokenType::CloseParen
        } else if c == SEMICOLON {
            TokenType::Semicolon
        } else if is_digit(c) {
            proof {
                lemma_scan_while(s, p as int, ByteClass::Digit);
            }
            assert(scan_while(s, p as int, ByteClass::Digit) == scan_while(s, p + 1, ByteClass::Digit));
            while self.current < self.source.len() && is_digit(self.source[self.current])
                invariant
                    self.source@ == s,
                    p < self.current <= s.len(),
                    self.start == p,
                    self.start_column == p - line_start(s, p as int),
                    self.line == count_newlines(s, p as int),
                    self.line == count_newlines(s, self.current as int),
                    self.column == self.current - line_start(s, self.current as int),
                    scan_while(s, p as int, ByteClass::Digit) == scan_while(s, self.current as int, ByteClass::Digit),
                    is_digit_spec(s[self.current - 1]),
                decreases s.len() - self.current,
            {
                self.advance();
            }
            assert(is_digit_spec(s[self.current - 1]));
            TokenType::IntegerLiteral
        } else if is_alpha(c) {
            proof {
                lemma_scan_while(s, p as int, ByteClass::Alpha);
            }
            assert(scan_while(s, p as int, ByteClass::Alpha) == scan_while(s, p + 1, ByteClass::Alpha));
            while self.current < self.source.len() && is_alpha(self.source[self.current])
                invariant
                    self.source@ == s,
                    p < self.current <= s.len(),
                    self.start == p,
                    self.start_column == p - line_start(s, p as int),
                    self.line == count_newlines(s, p as int),
                    self.line == count_newlines(s, self.current as int),
                    self.column == self.current - line_start(s, self.current as int),
                    scan_while(s, p as int, ByteClass::Alpha) == scan_while(s, self.current as int, ByteClass::Alpha),
                decreases s.len() - self.current,
            {
                self.advance();
            }
            assert(self.current < s.len() ==> !is_alpha_spec(s[self.current as int]));
            TokenType::Print
        } else {
            TokenType::Error(c)
        };
        assert(scan(s, p as int) == (kind, self.current - p));
        assert(p == scan_while(s, c0, ByteClass::Blank));
        assert(self.line == count_newlines(s, p as int));
        assert(self.start_column == p - line_start(s, p as int));
        assert(self.current < s.len() ==> !(is_alpha_spec(s[self.current - 1]) && is_alpha_spec(s[self.current as int])));
        Some(self.create_token(kind))
    }
}

} // verus!
