//! The arithmetic lexer: integer literals, `+ - * / ( ) ;` and `print`.
use crate::lexer::token::{Token, TokenKind, TokenStream};
use crate::span::Span;
use crate::text::{
    ByteClass,
    bytes_eq, in_class, is_alpha, is_alpha_spec, is_ascii_whitespace, is_ascii_whitespace_spec, is_digit,
    is_digit_spec, lemma_scan_while, scan_while, CLOSE_PAREN, MINUS, NEWLINE, OPEN_PAREN, PLUS,
    SEMICOLON, SLASH, STAR,
};
use vstd::prelude::*;

verus! {

/// The bytes of `print`.
pub open spec fn print_word() -> Seq<u8> {
    seq![112u8, 114u8, 105u8, 110u8, 116u8]
}

/// A byte this lexer reads to the end: whitespace, an operator, a
/// parenthesis, `;`, a digit or a letter.
pub open spec fn readable(c: u8) -> bool {
    is_ascii_whitespace_spec(c) || c == PLUS || c == MINUS || c == STAR
        || c == SLASH || c == OPEN_PAREN || c == CLOSE_PAREN || c == SEMICOLON || is_digit_spec(c)
        || is_alpha_spec(c)
}

/// A run of letters begins at `i`, reading from `cur`.
pub open spec fn word_start(s: Seq<u8>, cur: int, i: int) -> bool {
    cur <= i < s.len() && is_alpha_spec(s[i]) && (i == cur || !is_alpha_spec(s[i - 1]))
}

/// From `cur` on, `s` holds only readable bytes and every word is `print`:
/// the input on which this lexer makes progress and does not stop on an
/// unknown word.
pub open spec fn lexable_from(s: Seq<u8>, cur: int) -> bool {
    &&& forall|k: int| cur <= k < s.len() ==> readable(#[trigger] s[k])
    &&& forall|i: int| #[trigger] word_start(s, cur, i)
        ==> s.subrange(i, scan_while(s, i, ByteClass::Alpha)) == print_word()
}

/// Reading on from `b` keeps the input lexable when `b` does not split a
/// word.
pub proof fn lemma_lexable_forward(s: Seq<u8>, a: int, b: int)
    requires
        a <= b <= s.len(),
        b == a || b == s.len() || !is_alpha_spec(s[b - 1]) || !is_alpha_spec(s[b]),
    ensures
        lexable_from(s, a) ==> lexable_from(s, b),
{
    if lexable_from(s, a) {
        assert forall|i: int| #[trigger] word_start(s, b, i) implies
            s.subrange(i, scan_while(s, i, ByteClass::Alpha)) == print_word() by {
            assert(word_start(s, a, i));
        }
    }
}

/// The token after the whitespace at `cur` can be read: a word there is
/// `print`. This is what `next_token` reads of the input.
pub open spec fn next_readable(s: Seq<u8>, cur: int) -> bool {
    let p = scan_while(s, cur, ByteClass::AsciiWhitespace);
    p < s.len() && is_alpha_spec(s[p]) ==> s.subrange(p, scan_while(s, p, ByteClass::Alpha)) == print_word()
}

/// Input that is lexable from `cur` has its next token readable, and that
/// token is no `Error`.
pub proof fn lemma_lexable_next(s: Seq<u8>, cur: int)
    requires
        0 <= cur <= s.len(),
        lexable_from(s, cur),
    ensures
        next_readable(s, cur),
        scan_while(s, cur, ByteClass::AsciiWhitespace) < s.len()
            ==> !(scan(s, scan_while(s, cur, ByteClass::AsciiWhitespace)).0 is Error),
{
    lemma_scan_while(s, cur, ByteClass::AsciiWhitespace);
    let p = scan_while(s, cur, ByteClass::AsciiWhitespace);
    if p < s.len() {
        assert(readable(s[p]));
        if is_alpha_spec(s[p]) {
            if p > cur {
                assert(in_class(s[p - 1], ByteClass::AsciiWhitespace));
            }
            assert(word_start(s, cur, p));
        }
    }
}

/// The kind and length of the token at offset `p`, a byte that is not
/// whitespace.
pub open spec fn scan(s: Seq<u8>, p: int) -> (TokenKind, int) {
    let c = s[p];
    if c == PLUS {
        (TokenKind::Plus, 1)
    } else if c == MINUS {
        (TokenKind::Minus, 1)
    } else if c == STAR {
        (TokenKind::Star, 1)
    } else if c == SLASH {
        (TokenKind::Slash, 1)
    } else if c == OPEN_PAREN {
        (TokenKind::OpenParen, 1)
    } else if c == CLOSE_PAREN {
        (TokenKind::CloseParen, 1)
    } else if c == SEMICOLON {
        (TokenKind::Semicolon, 1)
    } else if is_digit_spec(c) {
        (TokenKind::IntegerLiteral, scan_while(s, p, ByteClass::Digit) - p)
    } else if is_alpha_spec(c) {
        (TokenKind::Print, scan_while(s, p, ByteClass::Alpha) - p)
    } else {
        (TokenKind::Error(c), 0)
    }
}

/// The state of a lexer as numbers: its position, the start of its last
/// token, its line, its column, and the column of its last token's start.
pub type ScanState = (int, int, int, int, int);

/// The line and column reached by moving from offset `from` to offset `to`
/// of `s`, from line `line` and column `col`: a newline starts the next
/// line at column 0, any other byte moves one column on.
pub open spec fn line_col_after(s: Seq<u8>, from: int, to: int, line: int, col: int) -> (int, int)
    decreases to - from,
{
    if to <= from {
        (line, col)
    } else {
        let (l, c) = line_col_after(s, from, to - 1, line, col);
        if s[to - 1] == NEWLINE { (l + 1, 0) } else { (l, c + 1) }
    }
}

/// The token a lexer in state `st` over `s` gives, and its state after:
/// whitespace is skipped, then one token is read; at the end of `s` the
/// token is `Eof`, over the text from the start of the last token.
pub open spec fn scan_step(s: Seq<u8>, st: ScanState) -> (Token, ScanState) {
    let (cur, start, line, col, scol) = st;
    let p = scan_while(s, cur, ByteClass::AsciiWhitespace);
    let (linep, colp) = line_col_after(s, cur, p, line, col);
    if p >= s.len() {
        (
            Token { kind: TokenKind::Eof, span: Span::between(start as nat, p as nat), line: linep as usize, column: scol as usize },
            (p, start, linep, colp, scol),
        )
    } else {
        let (k, n) = scan(s, p);
        (
            Token { kind: k, span: Span::between(p as nat, (p + n) as nat), line: linep as usize, column: colp as usize },
            (p + n, p, linep, colp + n, colp),
        )
    }
}

/// The token a lexer in state `st` over `s` gives `k` tokens on.
pub open spec fn scan_nth(s: Seq<u8>, st: ScanState, k: nat) -> Token
    decreases k,
{
    if k == 0 {
        scan_step(s, st).0
    } else {
        scan_nth(s, scan_step(s, st).1, (k - 1) as nat)
    }
}

pub struct Lexer<'src> {
    /// The source string to be lexed.
    pub source: &'src [u8],
    /// The index the lexer points at.
    pub current: usize,
    /// The start index of the current token.
    pub start: usize,
    /// The line number of the current token.
    pub line: usize,
    /// The column the lexer points at.
    pub column: usize,
    /// The column where the current token started.
    pub start_column: usize,
}

impl<'src> Default for Lexer<'src> {
    fn default() -> (l: Self)
        ensures
            l.source@.len() == 0,
            l.current == 0 && l.start == 0 && l.line == 0 && l.column == 0 && l.start_column == 0,
    {
        Lexer::new(&[])
    }
}

impl<'src> Lexer<'src> {
    pub fn new(source: &'src [u8]) -> (l: Self)
        ensures
            l.source == source,
            l.current == 0 && l.start == 0 && l.line == 0 && l.column == 0 && l.start_column == 0,
    {
        Self { source, current: 0, start: 0, line: 0, column: 0, start_column: 0 }
    }

    /// The byte the lexer points at, or `None` past the end.
    pub fn peek(&self) -> (r: Option<u8>)
        ensures
            self.current < self.source@.len() ==> r == Some(self.source@[self.current as int]),
            self.current >= self.source@.len() ==> r is None,
            self.current < self.source@.len() ==> self.current < usize::MAX,
    {
        if self.current < self.source.len() {
            Some(self.source[self.current])
        } else {
            None
        }
    }

    /// Moves past the byte the lexer points at and gives it. A newline is
    /// passed over like any other byte (the cursor does not stay on it, so
    /// whitespace that holds newlines is skipped to its end) and starts the
    /// next line, at column 0.
    pub fn advance(&mut self) -> (r: Option<u8>)
        requires
            old(self).line < usize::MAX,
            old(self).column < usize::MAX,
        ensures
            r == (if old(self).current < old(self).source@.len() { Some(old(self).source@[old(self).current as int]) } else { None }),
            final(self).source == old(self).source,
            final(self).start == old(self).start,
            final(self).start_column == old(self).start_column,
            r is None ==> *final(self) == *old(self),
            r == Some(NEWLINE) ==> final(self).line == old(self).line + 1 && final(self).column == 0
                && final(self).current == old(self).current + 1,
            r matches Some(c) && c != NEWLINE ==> final(self).line == old(self).line
                && final(self).column == old(self).column + 1
                && final(self).current == old(self).current + 1,
    {
        let c = self.peek();
        match c {
            Some(c) => {
                if c == NEWLINE {
                    self.column = 0;
                    self.line = self.line + 1;
                    self.current = self.current + 1;
                } else {
                    self.column = self.column + 1;
                    self.current = self.current + 1;
                }
            },
            None => {
                return c;
            },
        }
        c
    }

    /// A token of `kind` over the text from `start` to the position.
    pub fn create_token(&self, kind: TokenKind) -> (t: Token)
        requires
            self.start <= self.current,
        ensures
            t.kind == kind,
            t.span.start_spec() == self.start,
            t.span.len_spec() == self.current - self.start,
            t.line == self.line,
            t.column == self.start_column,
    {
        let span = Span::new(self.start, self.current - self.start);
        Token::new(kind, span, self.line, self.start_column)
    }

    /// The keyword an identifier spells; `print` is the only one.
    pub fn get_identifier_type(&self, ident: &[u8]) -> (k: TokenKind)
        requires
            ident@ == print_word(),
        ensures
            k == TokenKind::Print,
    {
        TokenKind::Print
    }

    /// The state from which `next_token` reads one token.
    pub open spec fn can_read_next(&self) -> bool {
        &&& self.current <= self.source@.len()
        &&& self.start <= self.current
        &&& self.line + (self.source@.len() - self.current) < usize::MAX
        &&& self.column + (self.source@.len() - self.current) < usize::MAX
        &&& next_readable(self.source@, self.current as int)
    }

    /// The state from which `next` reads to the end.
    pub open spec fn ready(&self) -> bool {
        &&& self.current <= self.source@.len()
        &&& self.start <= self.current
        &&& self.line + (self.source@.len() - self.current) < usize::MAX
        &&& self.column + (self.source@.len() - self.current) < usize::MAX
        &&& lexable_from(self.source@, self.current as int)
    }
}

impl<'src> Lexer<'src> {
    /// The lexer's state as numbers.
    pub open spec fn scan_state(&self) -> ScanState {
        (self.current as int, self.start as int, self.line as int, self.column as int, self.start_column as int)
    }
}

impl<'src> TokenStream for Lexer<'src> {
    open spec fn stream_inv(&self) -> bool {
        self.ready()
    }

    open spec fn remaining(&self) -> nat {
        (self.source@.len() - self.current) as nat
    }

    open spec fn text(&self) -> Seq<u8> {
        self.source@
    }

    open spec fn ahead(&self, k: nat) -> Token {
        scan_nth(self.source@, self.scan_state(), k)
    }

    fn next(&mut self) -> (t: Token) {
        proof { lemma_lexable_next(self.source@, self.current as int); }
        let t = self.next_token();
        proof {
            assert forall|k: nat| #[trigger] self.ahead(k) == old(self).ahead(k + 1) by {
                assert(scan_nth(old(self).source@, old(self).scan_state(), k + 1)
                    == scan_nth(self.source@, self.scan_state(), k));
            }
        }
        assert(self.remaining() <= old(self).remaining());
        t
    }
}

impl<'src> Lexer<'src> {
    /// The next token: whitespace is skipped, then one token is read. A
    /// byte that starts no token gives an `Error` token over no text, and
    /// the lexer stays at it.
    pub fn next_token(&mut self) -> (t: Token)
        requires
            old(self).can_read_next(),
        ensures
            t == scan_step(old(self).source@, old(self).scan_state()).0,
            final(self).scan_state() == scan_step(old(self).source@, old(self).scan_state()).1,
            old(self).ready() ==> final(self).ready(),
            final(self).current >= old(self).current,
            t.kind != TokenKind::Eof && !(t.kind is Error) ==> final(self).current > old(self).current,
            t.span.end_spec() <= old(self).source@.len(),
            ({
                let s = old(self).source@;
                let p = scan_while(s, old(self).current as int, ByteClass::AsciiWhitespace);
                &&& final(self).source == old(self).source
                &&& if p >= s.len() {
                    t.kind == TokenKind::Eof && final(self).current == s.len()
                } else {
                    let (k, n) = scan(s, p);
                    &&& t.kind == k
                    &&& t.span.start_spec() == p
                    &&& t.span.len_spec() == n
                    &&& final(self).current == p + n
                    &&& (n == 0) == (k is Error)
                }
            }),
    {
        let ghost s = self.source@;
        let ghost c0 = self.current as int;
        let ghost col0 = self.column as int;
        let ghost line0 = self.line as int;
        proof {
            lemma_scan_while(s, c0, ByteClass::AsciiWhitespace);
        }
        loop
            invariant_except_break
                self.current <= s.len(),
                self.start <= c0,
                self.line + (s.len() - self.current) < usize::MAX,
                self.column + (s.len() - self.current) < usize::MAX,
                lexable_from(s, c0) ==> lexable_from(s, self.current as int),
                next_readable(s, c0),
                self.start == old(self).start,
                col0 == old(self).column,
                self.start_column == old(self).start_column,
                s == old(self).source@,
                c0 == old(self).current,
                c0 <= s.len(),
                self.source@ == s,
                line0 == old(self).line,
                c0 <= self.current,
                (self.line as int, self.column as int) == line_col_after(s, c0, self.current as int, line0, col0),
                scan_while(s, c0, ByteClass::AsciiWhitespace) == scan_while(s, self.current as int, ByteClass::AsciiWhitespace),
            ensures
                self.start <= c0,
                self.line + (s.len() - self.current) < usize::MAX,
                self.column + (s.len() - self.current) < usize::MAX,
                lexable_from(s, c0) ==> lexable_from(s, self.current as int),
                next_readable(s, c0),
                self.start == old(self).start,
                col0 == old(self).column,
                self.start_column == old(self).start_column,
                s == old(self).source@,
                c0 == old(self).current,
                self.current < s.len(),
                c0 <= self.current,
                self.source@ == s,
                line0 == old(self).line,
                (self.line as int, self.column as int) == line_col_after(s, c0, self.current as int, line0, col0),
                self.current == scan_while(s, c0, ByteClass::AsciiWhitespace),
            decreases s.len() - self.current,
        {
            if let Some(c) = self.peek() {
                if is_ascii_whitespace(c) {
                    self.advance();
                    proof {
                        lemma_lexable_forward(s, self.current - 1, self.current as int);
                    }
                    continue;
                }
                break;
            } else {
                assert(self.current == s.len());
                assert(s == old(self).source@);
                assert(old(self).current <= s.len());
                assert(scan_while(s, self.current as int, ByteClass::AsciiWhitespace) == self.current);
                let t = self.create_token(TokenKind::Eof);
                proof {
                    Span::lemma_between(t.span);
                    let p = scan_while(s, c0, ByteClass::AsciiWhitespace);
                    assert(p == self.current);
                    let (lp, cp) = line_col_after(s, c0, p, line0, col0);
                    assert(self.scan_state() == (p, old(self).start as int, lp, cp, old(self).start_column as int));
                    assert(old(self).scan_state() == (c0, old(self).start as int, line0, col0, old(self).start_column as int));
                    assert(scan_step(s, old(self).scan_state()).1 == (p, old(self).start as int, lp, cp, old(self).start_column as int));
                }
                return t;
            }
        }
        let ghost lp = self.line as int;
        let ghost cp = self.column as int;
        self.start = self.current;
        self.start_column = self.column;
        let p: usize = self.current;
        let c: u8 = self.source[p];
        if c == PLUS {
            self.advance();
            proof {
                lemma_lexable_forward(s, p as int, self.current as int);
            }
            let t = self.create_token(TokenKind::Plus);
            proof { Span::lemma_between(t.span); }
            return t;
        } else if c == MINUS {
            self.advance();
            proof {
                lemma_lexable_forward(s, p as int, self.current as int);
            }
            let t = self.create_token(TokenKind::Minus);
            proof { Span::lemma_between(t.span); }
            return t;
        } else if c == STAR {
            self.advance();
            proof {
                lemma_lexable_forward(s, p as int, self.current as int);
            }
            let t = self.create_token(TokenKind::Star);
            proof { Span::lemma_between(t.span); }
            return t;
        } else if c == SLASH {
            self.advance();
            proof {
                lemma_lexable_forward(s, p as int, self.current as int);
            }
            let t = self.create_token(TokenKind::Slash);
            proof { Span::lemma_between(t.span); }
            return t;
        } else if c == OPEN_PAREN {
            self.advance();
            proof {
                lemma_lexable_forward(s, p as int, self.current as int);
            }
            let t = self.create_token(TokenKind::OpenParen);
            proof { Span::lemma_between(t.span); }
            return t;
        } else if c == CLOSE_PAREN {
            self.advance();
            proof {
                lemma_lexable_forward(s, p as int, self.current as int);
            }
            let t = self.create_token(TokenKind::CloseParen);
            proof { Span::lemma_between(t.span); }
            return t;
        } else if c == SEMICOLON {
            self.advance();
            proof {
                lemma_lexable_forward(s, p as int, self.current as int);
            }
            let t = self.create_token(TokenKind::Semicolon);
            proof { Span::lemma_between(t.span); }
            return t;
        } else if is_digit(c) {
            proof {
                lemma_scan_while(s, p as int, ByteClass::Digit);
            }
            while self.current < self.source.len() && is_digit(self.source[self.current])
                invariant
                    self.source@ == s,
                    p <= self.current <= s.len(),
                    self.start == p,
                    self.start_column == cp,
                    self.line == lp,
                    lp + (s.len() - p) < usize::MAX,
                    self.column == cp + (self.current - p),
                    cp + (s.len() - p) < usize::MAX,
                    (lp, cp) == line_col_after(s, c0, p as int, line0, col0),
                    lexable_from(s, c0) ==> lexable_from(s, p as int),
                    scan_while(s, p as int, ByteClass::Digit) == scan_while(s, self.current as int, ByteClass::Digit),
                    p < self.current ==> is_digit_spec(s[self.current - 1]),
                    is_digit_spec(s[p as int]),
                decreases s.len() - self.current,
            {
                self.advance();
            }
            assert(p < self.current);
            proof {
                lemma_lexable_forward(s, p as int, self.current as int);
            }
            let t = self.create_token(TokenKind::IntegerLiteral);
            proof { Span::lemma_between(t.span); }
            return t;
        } else if is_alpha(c) {
            proof {
                lemma_scan_while(s, p as int, ByteClass::Alpha);
            }
            let mut ident: Vec<u8> = Vec::new();
            while self.current < self.source.len() && is_alpha(self.source[self.current])
                invariant
                    self.source@ == s,
                    p <= self.current <= s.len(),
                    self.start == p,
                    self.start_column == cp,
                    self.line == lp,
                    lp + (s.len() - p) < usize::MAX,
                    self.column == cp + (self.current - p),
                    cp + (s.len() - p) < usize::MAX,
                    (lp, cp) == line_col_after(s, c0, p as int, line0, col0),
                    lexable_from(s, c0) ==> lexable_from(s, p as int),
                    next_readable(s, c0),
                    p == scan_while(s, c0, ByteClass::AsciiWhitespace),
                    ident@ == s.subrange(p as int, self.current as int),
                    scan_while(s, p as int, ByteClass::Alpha) == scan_while(s, self.current as int, ByteClass::Alpha),
                decreases s.len() - self.current,
            {
                ident.push(self.source[self.current]);
                self.advance();
                assert(ident@ =~= s.subrange(p as int, self.current as int));
            }
            assert(self.current == s.len() || !is_alpha_spec(s[self.current as int]));
            proof {
                lemma_lexable_forward(s, p as int, self.current as int);
                assert(scan_while(s, self.current as int, ByteClass::Alpha) == self.current);
                assert(ident@ == print_word());
            }
            let ident_kind = self.get_identifier_type(ident.as_slice());
            let t = self.create_token(ident_kind);
            proof { Span::lemma_between(t.span); }
            return t;
        } else {
            let t = self.create_token(TokenKind::Error(c));
            proof { Span::lemma_between(t.span); }
            return t;
        }
    }
}

} // verus!
