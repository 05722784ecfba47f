//! The lexer: turns source bytes into tokens.
pub mod lexer;
pub mod token;

use crate::span::Span;
use crate::text::{
    ByteClass,
    bytes_eq, count_newlines, is_alpha, is_alpha_spec, is_ascii_whitespace, is_ascii_whitespace_spec,
    is_digit, is_digit_spec, is_ident_continue, is_ident_continue_spec, lemma_count_newlines_bound,
    lemma_scan_while, line_start, literal_run, scan_while, all_in, in_class, AMPERSAND, BANG, CLOSE_BRACE, CLOSE_PAREN, COLON, EQUAL,
    GREATER, LESS, MINUS, NEWLINE, OPEN_BRACE, OPEN_PAREN, PIPE, PLUS, SEMICOLON, SLASH, STAR, UNDERSCORE,
};
use token::{token_in_text, Token, TokenKind, TokenStream};
use vstd::prelude::*;

verus! {

/// The keyword that `w` spells, or `Identifier` when it spells none.
pub open spec fn keyword_kind(w: Seq<u8>) -> TokenKind {
    if w == seq![112u8, 114u8, 105u8, 110u8, 116u8] {
        TokenKind::Print
    } else if w == seq![108u8, 101u8, 116u8] {
        TokenKind::Let
    } else if w == seq![105u8, 110u8, 116u8] {
        TokenKind::Int
    } else if w == seq![98u8, 111u8, 111u8, 108u8] {
        TokenKind::Bool
    } else if w == seq![100u8, 111u8, 117u8, 98u8, 108u8, 101u8] {
        TokenKind::Double
    } else if w == seq![118u8, 111u8, 105u8, 100u8] {
        TokenKind::Void
    } else if w == seq![116u8, 114u8, 117u8, 101u8] {
        TokenKind::True
    } else if w == seq![102u8, 97u8, 108u8, 115u8, 101u8] {
        TokenKind::False
    } else if w == seq![105u8, 102u8] {
        TokenKind::If
    } else if w == seq![101u8, 108u8, 115u8, 101u8] {
        TokenKind::Else
    } else if w == seq![119u8, 104u8, 105u8, 108u8, 101u8] {
        TokenKind::While
    } else if w == seq![102u8, 111u8, 114u8] {
        TokenKind::For
    } else if w == seq![98u8, 114u8, 101u8, 97u8, 107u8] {
        TokenKind::Break
    } else if w == seq![99u8, 111u8, 110u8, 116u8, 105u8, 110u8, 117u8, 101u8] {
        TokenKind::Continue
    } else {
        TokenKind::Identifier
    }
}

/// Whether the byte after offset `p` of `s` is `d`.
pub open spec fn followed_by(s: Seq<u8>, p: int, d: u8) -> bool {
    p + 1 < s.len() && s[p + 1] == d
}

/// The kind and the length of the token that starts at offset `p` of `s`,
/// a byte that is not whitespace.
pub open spec fn scan_token(s: Seq<u8>, p: int) -> (TokenKind, int) {
    let c = s[p];
    if c == PLUS {
        if followed_by(s, p, PLUS) { (TokenKind::PlusPlus, 2) } else { (TokenKind::Plus, 1) }
    } else if c == MINUS {
        if followed_by(s, p, MINUS) { (TokenKind::MinusMinus, 2) } else { (TokenKind::Minus, 1) }
    } else if c == STAR {
        (TokenKind::Star, 1)
    } else if c == SLASH {
        (TokenKind::Slash, 1)
    } else if c == OPEN_PAREN {
        (TokenKind::OpenParen, 1)
    } else if c == CLOSE_PAREN {
        (TokenKind::CloseParen, 1)
    } else if c == SEMICOLON {
        (TokenKind::Semicolon, 1)
    } else if c == COLON {
        (TokenKind::Colon, 1)
    } else if c == OPEN_BRACE {
        (TokenKind::OpenBrace, 1)
    } else if c == CLOSE_BRACE {
        (TokenKind::CloseBrace, 1)
    } else if c == EQUAL {
        if followed_by(s, p, EQUAL) { (TokenKind::EqualEqual, 2) } else { (TokenKind::Equal, 1) }
    } else if c == BANG {
        if followed_by(s, p, EQUAL) { (TokenKind::BangEqual, 2) } else { (TokenKind::Error(c), 1) }
    } else if c == LESS {
        if followed_by(s, p, EQUAL) { (TokenKind::LessEq, 2) } else { (TokenKind::LessThan, 1) }
    } else if c == GREATER {
        if followed_by(s, p, EQUAL) { (TokenKind::GreaterEq, 2) } else { (TokenKind::GreaterThan, 1) }
    } else if c == AMPERSAND {
        if followed_by(s, p, AMPERSAND) { (TokenKind::And, 2) } else { (TokenKind::Error(c), 1) }
    } else if c == PIPE {
        if followed_by(s, p, PIPE) { (TokenKind::Or, 2) } else { (TokenKind::Error(c), 1) }
    } else if is_digit_spec(c) {
        (TokenKind::IntegerLiteral, scan_while(s, p, ByteClass::Digit) - p)
    } else if is_alpha_spec(c) || c == UNDERSCORE {
        let e = scan_while(s, p, ByteClass::IdentContinue);
        (keyword_kind(s.subrange(p, e)), e - p)
    } else {
        (TokenKind::Error(c), 1)
    }
}

/// The offset of the first byte at or after `cur` that is not whitespace.
pub open spec fn skip_whitespace(s: Seq<u8>, cur: int) -> int {
    scan_while(s, cur, ByteClass::AsciiWhitespace)
}

/// The kind, start and end of the token that the lexer produces when it is
/// at offset `cur` of `s`: `Eof` with an empty span at the end of the
/// source, else the token after any whitespace.
pub open spec fn lex_step(s: Seq<u8>, cur: int) -> (TokenKind, int, int) {
    let p = skip_whitespace(s, cur);
    if p >= s.len() {
        (TokenKind::Eof, p, p)
    } else {
        let (k, n) = scan_token(s, p);
        (k, p, p + n)
    }
}

/// The token that the lexer produces when it is at offset `cur` of `s`,
/// as `lex_step` gives it, with the line and column of its first byte.
pub open spec fn lex_token(s: Seq<u8>, cur: int) -> Token {
    let (k, st, en) = lex_step(s, cur);
    Token {
        kind: k,
        span: Span::between(st as nat, en as nat),
        line: count_newlines(s, st) as usize,
        column: (st - line_start(s, st)) as usize,
    }
}

/// The token a lexer at offset `cur` of `s` produces `k` tokens on.
pub open spec fn lex_nth(s: Seq<u8>, cur: int, k: nat) -> Token
    decreases k,
{
    if k == 0 {
        lex_token(s, cur)
    } else {
        lex_nth(s, lex_step(s, cur).2, (k - 1) as nat)
    }
}

/// Offset `p` of `s` lies between tokens: no digit there continues a word
/// that ends just before it.
pub open spec fn at_boundary(s: Seq<u8>, p: int) -> bool {
    p <= 0 || p >= s.len() || !is_ident_continue_spec(s[p - 1]) || !is_digit_spec(s[p])
}

/// Turns source bytes into tokens, keeping the line and column of each.
pub struct Lexer<'src> {
    source: &'src [u8],
    current: usize,
    start: usize,
    line: usize,
    column: usize,
    start_column: usize,
}

impl<'src> Lexer<'src> {
    /// The source text.
    pub closed spec fn source_spec(&self) -> Seq<u8> {
        self.source@
    }

    /// The offset of the next byte to read.
    pub closed spec fn position(&self) -> int {
        self.current as int
    }

    /// The lexer's position is in the source, and its line and column are
    /// those of that position.
    pub closed spec fn inv(&self) -> bool {
        &&& self.current <= self.source@.len()
        &&& self.start <= self.current
        &&& self.line == count_newlines(self.source@, self.current as int)
        &&& self.column == self.current - line_start(self.source@, self.current as int)
    }

    /// A lexer at the start of `source`.
    pub fn new(source: &'src [u8]) -> (l: Self)
        ensures
            l.inv(),
            l.source_spec() == source@,
            l.position() == 0,
    {
        Lexer { source, current: 0, start: 0, line: 0, column: 0, start_column: 0 }
    }

    fn peek(&self) -> (r: Option<u8>)
        requires
            self.inv(),
        ensures
            self.current < self.source@.len() ==> r == Some(self.source@[self.current as int]),
            self.current >= self.source@.len() ==> r is None,
    {
        if self.current < self.source.len() {
            Some(self.source[self.current])
        } else {
            None
        }
    }

    fn advance(&mut self)
        requires
            old(self).inv(),
            old(self).current < old(self).source@.len(),
        ensures
            final(self).inv(),
            final(self).source == old(self).source,
            final(self).current == old(self).current + 1,
            final(self).start == old(self).start,
            final(self).start_column == old(self).start_column,
            old(self).source@[old(self).current as int] != NEWLINE ==> final(self).line == old(self).line,
    {
        proof {
            lemma_count_newlines_bound(self.source@, self.current as int);
        }
        let c: u8 = self.source[self.current];
        if c == NEWLINE {
            self.line = self.line + 1;
            self.column = 0;
        } else {
            self.column = self.column + 1;
        }
        self.current = self.current + 1;
    }

    /// Whether the next byte is `d`; consumes it when it is.
    fn eat(&mut self, d: u8) -> (r: bool)
        requires
            old(self).inv(),
            d != NEWLINE,
        ensures
            final(self).line == old(self).line,
            final(self).inv(),
            final(self).source == old(self).source,
            final(self).start == old(self).start,
            final(self).start_column == old(self).start_column,
            r == (old(self).current < old(self).source@.len()
                && old(self).source@[old(self).current as int] == d),
            final(self).current == old(self).current + if r { 1int } else { 0int },
    {
        if self.current < self.source.len() && self.source[self.current] == d {
            self.advance();
            true
        } else {
            false
        }
    }

    fn create_token(&self, kind: TokenKind) -> (t: Token)
        requires
            self.inv(),
        ensures
            t.kind == kind,
            t.span.start_spec() == self.start,
            t.span.len_spec() == self.current - self.start,
            t.line == self.line,
            t.column == self.start_column,
    {
        Token::new(kind, Span::new(self.start, self.current - self.start), self.line, self.start_column)
    }

    /// Reads bytes while `p` holds for them.
    fn skip_while_digit(&mut self)
        requires
            old(self).inv(),
        ensures
            final(self).inv(),
            final(self).source == old(self).source,
            final(self).line == old(self).line,
            final(self).start == old(self).start,
            final(self).start_column == old(self).start_column,
            final(self).current == scan_while(old(self).source@, old(self).current as int, ByteClass::Digit),
    {
        let ghost s = self.source@;
        let ghost c0 = self.current as int;
        while self.current < self.source.len() && is_digit(self.source[self.current])
            invariant
                self.inv(),
                self.source@ == s,
                self.line == old(self).line,
                self.start == old(self).start,
                self.start_column == old(self).start_column,
                scan_while(s, c0, ByteClass::Digit) == scan_while(s, self.current as int, ByteClass::Digit),
            decreases s.len() - self.current,
        {
            self.advance();
        }
    }

    fn skip_while_ident(&mut self)
        requires
            old(self).inv(),
        ensures
            final(self).inv(),
            final(self).source == old(self).source,
            final(self).line == old(self).line,
            final(self).start == old(self).start,
            final(self).start_column == old(self).start_column,
            final(self).current == scan_while(old(self).source@, old(self).current as int, ByteClass::IdentContinue),
    {
        let ghost s = self.source@;
        let ghost c0 = self.current as int;
        while self.current < self.source.len() && is_ident_continue(self.source[self.current])
            invariant
                self.inv(),
                self.source@ == s,
                self.line == old(self).line,
                self.start == old(self).start,
                self.start_column == old(self).start_column,
                scan_while(s, c0, ByteClass::IdentContinue) == scan_while(s, self.current as int, ByteClass::IdentContinue),
            decreases s.len() - self.current,
        {
            self.advance();
        }
    }

    fn skip_whitespace(&mut self)
        requires
            old(self).inv(),
        ensures
            final(self).inv(),
            final(self).source == old(self).source,
            final(self).current == skip_whitespace(old(self).source@, old(self).current as int),
    {
        let ghost s = self.source@;
        let ghost c0 = self.current as int;
        while self.current < self.source.len() && is_ascii_whitespace(self.source[self.current])
            invariant
                self.inv(),
                self.source@ == s,
                skip_whitespace(s, c0) == skip_whitespace(s, self.current as int),
            decreases s.len() - self.current,
        {
            self.advance();
        }
    }
}

/// The token kind that the word `w` lexes to.
pub fn keyword(w: &[u8]) -> (k: TokenKind)
    ensures
        k == keyword_kind(w@),
{
    let print_kw: &[u8] = &[112u8, 114u8, 105u8, 110u8, 116u8];
    let let_kw: &[u8] = &[108u8, 101u8, 116u8];
    let int_kw: &[u8] = &[105u8, 110u8, 116u8];
    let bool_kw: &[u8] = &[98u8, 111u8, 111u8, 108u8];
    let double_kw: &[u8] = &[100u8, 111u8, 117u8, 98u8, 108u8, 101u8];
    let void_kw: &[u8] = &[118u8, 111u8, 105u8, 100u8];
    let true_kw: &[u8] = &[116u8, 114u8, 117u8, 101u8];
    let false_kw: &[u8] = &[102u8, 97u8, 108u8, 115u8, 101u8];
    let if_kw: &[u8] = &[105u8, 102u8];
    let else_kw: &[u8] = &[101u8, 108u8, 115u8, 101u8];
    let while_kw: &[u8] = &[119u8, 104u8, 105u8, 108u8, 101u8];
    let for_kw: &[u8] = &[102u8, 111u8, 114u8];
    let break_kw: &[u8] = &[98u8, 114u8, 101u8, 97u8, 107u8];
    let continue_kw: &[u8] = &[99u8, 111u8, 110u8, 116u8, 105u8, 110u8, 117u8, 101u8];
    assert(print_kw@ =~= seq![112u8, 114u8, 105u8, 110u8, 116u8]);
    assert(let_kw@ =~= seq![108u8, 101u8, 116u8]);
    assert(int_kw@ =~= seq![105u8, 110u8, 116u8]);
    assert(bool_kw@ =~= seq![98u8, 111u8, 111u8, 108u8]);
    assert(double_kw@ =~= seq![100u8, 111u8, 117u8, 98u8, 108u8, 101u8]);
    assert(void_kw@ =~= seq![118u8, 111u8, 105u8, 100u8]);
    assert(true_kw@ =~= seq![116u8, 114u8, 117u8, 101u8]);
    assert(false_kw@ =~= seq![102u8, 97u8, 108u8, 115u8, 101u8]);
    assert(if_kw@ =~= seq![105u8, 102u8]);
    assert(else_kw@ =~= seq![101u8, 108u8, 115u8, 101u8]);
    assert(while_kw@ =~= seq![119u8, 104u8, 105u8, 108u8, 101u8]);
    assert(for_kw@ =~= seq![102u8, 111u8, 114u8]);
    assert(break_kw@ =~= seq![98u8, 114u8, 101u8, 97u8, 107u8]);
    assert(continue_kw@ =~= seq![99u8, 111u8, 110u8, 116u8, 105u8, 110u8, 117u8, 101u8]);
    if bytes_eq(w, print_kw) {
        TokenKind::Print
    } else if bytes_eq(w, let_kw) {
        TokenKind::Let
    } else if bytes_eq(w, int_kw) {
        TokenKind::Int
    } else if bytes_eq(w, bool_kw) {
        TokenKind::Bool
    } else if bytes_eq(w, double_kw) {
        TokenKind::Double
    } else if bytes_eq(w, void_kw) {
        TokenKind::Void
    } else if bytes_eq(w, true_kw) {
        TokenKind::True
    } else if bytes_eq(w, false_kw) {
        TokenKind::False
    } else if bytes_eq(w, if_kw) {
        TokenKind::If
    } else if bytes_eq(w, else_kw) {
        TokenKind::Else
    } else if bytes_eq(w, while_kw) {
        TokenKind::While
    } else if bytes_eq(w, for_kw) {
        TokenKind::For
    } else if bytes_eq(w, break_kw) {
        TokenKind::Break
    } else if bytes_eq(w, continue_kw) {
        TokenKind::Continue
    } else {
        TokenKind::Identifier
    }
}

impl<'src> TokenStream for Lexer<'src> {
    open spec fn text(&self) -> Seq<u8> {
        self.source_spec()
    }

    open spec fn stream_inv(&self) -> bool {
        self.inv() && at_boundary(self.source_spec(), self.position())
    }

    open spec fn remaining(&self) -> nat {
        (self.source_spec().len() - self.position()) as nat
    }

    open spec fn ahead(&self, k: nat) -> Token {
        lex_nth(self.source_spec(), self.position(), k)
    }

    fn next(&mut self) -> (t: Token) {
        let t = self.next_token();
        proof {
            Span::lemma_between(t.span);
            assert forall|k: nat| #[trigger] self.ahead(k) == old(self).ahead(k + 1) by {
                assert(lex_nth(old(self).source_spec(), old(self).position(), k + 1)
                    == lex_nth(self.source_spec(), self.position(), k));
            }
        }
        assert(self.position() <= self.source_spec().len());
        assert(old(self).position() <= old(self).source_spec().len());
        assert(self.remaining() <= old(self).remaining());
        t
    }
}

impl<'src> Lexer<'src> {
    /// The next token, as `lex_step` describes it, with the line and column
    /// of its first byte.
    pub fn next_token(&mut self) -> (t: Token)
        requires
            old(self).inv(),
            at_boundary(old(self).source_spec(), old(self).position()),
        ensures
            final(self).inv(),
            at_boundary(final(self).source_spec(), final(self).position()),
            final(self).source_spec() == old(self).source_spec(),
            ({
                let (k, st, en) = lex_step(old(self).source_spec(), old(self).position());
                &&& t.kind == k
                &&& t.span.start_spec() == st
                &&& t.span.end_spec() == en
                &&& final(self).position() == en
                &&& t.line == count_newlines(old(self).source_spec(), st)
                &&& t.column == st - line_start(old(self).source_spec(), st)
            }),
            token_in_text(t, old(self).source_spec()),
            final(self).position() >= old(self).position(),
            t.kind != TokenKind::Eof ==> final(self).position() > old(self).position(),
    {
        let ghost s = self.source@;
        proof {
            lemma_scan_while(s, self.current as int, ByteClass::AsciiWhitespace);
        }
        self.skip_whitespace();
        self.start = self.current;
        self.start_column = self.column;
        if self.current >= self.source.len() {
            return self.create_token(TokenKind::Eof);
        }
        let c: u8 = self.source[self.current];
        let p: usize = self.current;
        self.advance();
        let kind: TokenKind = if c == PLUS {
            if self.eat(PLUS) { TokenKind::PlusPlus } else { TokenKind::Plus }
        } else if c == MINUS {
            if self.eat(MINUS) { TokenKind::MinusMinus } else { TokenKind::Minus }
        } else if c == STAR {
            TokenKind::Star
        } else if c == SLASH {
            TokenKind::Slash
        } else if c == OPEN_PAREN {
            TokenKind::OpenParen
        } else if c == CLOSE_PAREN {
            TokenKind::CloseParen
        } else if c == SEMICOLON {
            TokenKind::Semicolon
        } else if c == COLON {
            TokenKind::Colon
        } else if c == OPEN_BRACE {
            TokenKind::OpenBrace
        } else if c == CLOSE_BRACE {
            TokenKind::CloseBrace
        } else if c == EQUAL {
            if self.eat(EQUAL) { TokenKind::EqualEqual } else { TokenKind::Equal }
        } else if c == BANG {
            if self.eat(EQUAL) { TokenKind::BangEqual } else { TokenKind::Error(c) }
        } else if c == LESS {
            if self.eat(EQUAL) { TokenKind::LessEq } else { TokenKind::LessThan }
        } else if c == GREATER {
            if self.eat(EQUAL) { TokenKind::GreaterEq } else { TokenKind::GreaterThan }
        } else if c == AMPERSAND {
            if self.eat(AMPERSAND) { TokenKind::And } else { TokenKind::Error(c) }
        } else if c == PIPE {
            if self.eat(PIPE) { TokenKind::Or } else { TokenKind::Error(c) }
        } else if is_digit(c) {
            proof {
                lemma_scan_while(s, p as int, ByteClass::Digit);
                lemma_scan_while(s, old(self).current as int, ByteClass::AsciiWhitespace);
                if p > old(self).current {
                    assert(in_class(s[p - 1], ByteClass::AsciiWhitespace));
                }
            }
            self.skip_while_digit();
            assert(scan_while(s, p as int, ByteClass::Digit) == scan_while(s, p + 1, ByteClass::Digit));
            assert(literal_run(s, p as int, self.current as int));
            TokenKind::IntegerLiteral
        } else if is_alpha(c) || c == UNDERSCORE {
            proof {
                lemma_scan_while(s, p as int, ByteClass::IdentContinue);
            }
            self.skip_while_ident();
            assert(scan_while(s, p as int, ByteClass::IdentContinue) == scan_while(s, p + 1, ByteClass::IdentContinue));
            let w: &[u8] = &self.source[p..self.current];
            keyword(w)
        } else {
            TokenKind::Error(c)
        };
        assert(scan_token(s, p as int) == (kind, self.current - p));
        assert(p == skip_whitespace(s, old(self).current as int));
        assert(lex_step(s, old(self).current as int) == (kind, p as int, self.current as int));
        self.create_token(kind)
    }
}

} // verus!
