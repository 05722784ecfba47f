//! A recursive descent parser from tokens to the syntax tree. Errors are
//! recorded as diagnostics and as `Error` nodes, and parsing goes on.
use crate::analysis::types::Type;
use crate::analysis::types::{err, lemma_diags_push, reports_of, Report};
use crate::diagnostics::{decimal, owned, push_decimal, Diagnostic, Severity};
use crate::lex::token::{token_in_text, Token, TokenKind, TokenStream};
use crate::parser::parser::id_after;
use crate::parse::grammar::{
    sync_at, failed, jump_at, exprstmt_at, print_at, block_at, block_rest, condition_at, while_at, if_at, var_decl_at,
    typed_decl_at, decl_init_at, token_text,
    for_init_at, opt_expression_at, for_at, for_clauses_at, statement_at, program_rest,
    assignment_at, binary_at, binary_rest, continues, expression_at, lemma_binary_first, lemma_binary_step,
    lemma_continues_at, lemma_continues_len, lemma_continues_push, lemma_continues_refl, lemma_continues_trans, postfix_at, postfix_rest, primary_at, unary_at,
};
use crate::parse::ast::{
    ascending_in, expr_has_error, expr_ids, expr_view, expr_within, lemma_ascending_concat, opt_expr_has_error,
    opt_expr_ids, opt_expr_within, opt_init_has_error, opt_init_ids, opt_init_within, span_within, stmt_has_error, stmt_ids, stmt_view, stmts_view, StmtView, ExprView, InitView, opt_expr_view, opt_init_view, stmt_within,
    stmts_have_error, stmts_ids, stmts_within, BinOpKind, Expr, ExprKind, ForInit, LitKind, NodeId,
    Program, Stmt, StmtKind, UnaryOpKind,
};
use crate::span::{Span, Spanned};
use crate::text::{literals_fit, parse_decimal_u128};
use vstd::prelude::*;

verus! {

/// The lines of bytes `b` as `{:#?}` shows them: each byte in decimal,
/// indented four spaces and followed by a comma and a newline.
pub open spec fn pretty_byte_lines(b: Seq<u8>) -> Seq<char>
    decreases b.len(),
{
    if b.len() == 0 {
        seq![]
    } else {
        pretty_byte_lines(b.drop_last()) + "    "@ + decimal(b.last() as nat) + ",\n"@
    }
}

/// How `{:#?}` shows a byte slice: `[]` when it is empty, else `[`, a
/// newline, the lines of its bytes, and `]`.
pub open spec fn pretty_bytes(b: Seq<u8>) -> Seq<char> {
    if b.len() == 0 { "[]"@ } else { "[\n"@ + pretty_byte_lines(b) + "]"@ }
}

/// The text of the diagnostic for an unexpected token whose source text is
/// `lexeme`.
pub open spec fn unexpected_token_text(lexeme: Seq<u8>) -> Seq<char> {
    "unexpected token: '"@ + pretty_bytes(lexeme) + "'"@
}

/// The message for an unexpected token whose source text is `lexeme`: the
/// bytes in brackets, one a line, as the alternate form of `Debug` shows a
/// slice.
fn unexpected_token_message(lexeme: &[u8]) -> (s: String)
    ensures
        s@ == unexpected_token_text(lexeme@),
{
    let mut s = String::from_str("unexpected token: '");
    if lexeme.len() == 0 {
        s.append("[]");
    } else {
        s.append("[\n");
        let ghost head = s@;
        let mut i: usize = 0;
        proof { assert(lexeme@.take(0) =~= Seq::<u8>::empty()); }
        while i < lexeme.len()
            invariant
                i <= lexeme@.len(),
                s@ == head + pretty_byte_lines(lexeme@.take(i as int)),
            decreases lexeme@.len() - i,
        {
            s.append("    ");
            push_decimal(&mut s, lexeme[i] as usize);
            s.append(",\n");
            proof {
                let t = lexeme@.take(i + 1);
                assert(t.drop_last() =~= lexeme@.take(i as int));
                assert(s@ =~= head + pretty_byte_lines(t));
            }
            i = i + 1;
        }
        proof { assert(lexeme@.take(lexeme@.len() as int) =~= lexeme@); }
        s.append("]");
    }
    s.append("'");
    proof { assert(s@ =~= unexpected_token_text(lexeme@)); }
    s
}

/// `d` extends `before` with diagnostics whose spans lie in a source of
/// length `n`.
pub open spec fn diags_extend(before: Seq<Diagnostic>, after: Seq<Diagnostic>, n: int) -> bool {
    &&& before.len() <= after.len()
    &&& after.subrange(0, before.len() as int) == before
    &&& forall|i: int| before.len() <= i < after.len() ==> span_within(#[trigger] after[i].span, n)
}

pub struct Parser<'src, 'diag, T: TokenStream> {
    tokenstream: T,
    pub diagnostics: &'diag mut Vec<Diagnostic>,
    source: &'src [u8],
    current: Token,
    prev: Token,
    curr_nodeid: NodeId,
    read: Ghost<Seq<Token>>,
    origin: Ghost<T>,
}

impl<'src, 'diag, T: TokenStream> Parser<'src, 'diag, T> {
    /// The source text.
    pub closed spec fn src(&self) -> Seq<u8> {
        self.source@
    }

    /// The diagnostics gathered so far.
    pub closed spec fn diags(&self) -> Seq<Diagnostic> {
        self.diagnostics@
    }

    /// The token under the cursor.
    pub closed spec fn peek_token(&self) -> Token {
        self.current
    }

    /// The token before the cursor.
    pub closed spec fn prev_token(&self) -> Token {
        self.prev
    }

    /// Every token taken from the stream so far; the last one is under the
    /// cursor.
    pub closed spec fn tokens(&self) -> Seq<Token> {
        self.read@
    }

    /// The stream as the parser was given it.
    pub closed spec fn stream(&self) -> T {
        self.origin@
    }

    /// The position of the token under the cursor.
    pub open spec fn pos(&self) -> int {
        self.tokens().len() - 1
    }

    /// The id the next node gets.
    pub closed spec fn next_id(&self) -> nat {
        self.curr_nodeid.0 as nat
    }

    /// What is left to parse: the stream's measure, and one more while the
    /// token under the cursor is not `Eof`.
    pub closed spec fn measure(&self) -> nat {
        self.tokenstream.remaining() + if self.current.kind is Eof { 0nat } else { 1nat }
    }

    /// The stream reads the parser's source and is consistent, and both
    /// tokens the parser holds lie in the source.
    pub closed spec fn wf(&self) -> bool {
        &&& self.tokenstream.stream_inv()
        &&& self.tokenstream.text() == self.source@
        &&& self.source@.len() <= usize::MAX
        &&& token_in_text(self.current, self.source@)
        &&& token_in_text(self.prev, self.source@)
        &&& self.read@.len() >= 1
        &&& self.read@.last() == self.current
        &&& forall|i: int| 0 <= i < self.read@.len() ==> #[trigger] self.read@[i] == self.origin@.ahead(i as nat)
        &&& forall|k: nat| #[trigger] self.tokenstream.ahead(k) == self.origin@.ahead(self.read@.len() + k)
    }

    /// The parser can go on: it is consistent, and every integer literal of
    /// its source fits a `u128`.
    pub open spec fn ready(&self) -> bool {
        &&& self.wf()
        &&& literals_fit(self.src())
    }

    /// How a parsing step relates the parser after it to the parser before:
    /// same source, nothing more left to parse, ids only grow, and
    /// diagnostics are only added, each about a span of the source.
    pub open spec fn step_from(&self, before: Self) -> bool {
        &&& self.ready()
        &&& self.src() == before.src()
        &&& self.measure() <= before.measure()
        &&& continues(self.tokens(), before.tokens())
        &&& self.pos() >= before.pos()
        &&& self.stream() == before.stream()
        &&& self.next_id() >= before.next_id()
        &&& diags_extend(before.diags(), self.diags(), self.src().len() as int)
    }

    /// An expression `e` parsed from `before` to `self`: its spans lie in
    /// the source, it holds an error node exactly when diagnostics were
    /// added, and its ids rise strictly within the ids handed out.
    pub open spec fn expr_parsed(&self, before: Self, e: Expr) -> bool {
        &&& self.step_from(before)
        &&& expr_within(e, self.src().len() as int)
        &&& (self.diags().len() == before.diags().len()) == !expr_has_error(e)
        &&& self.next_id() < usize::MAX ==> ascending_in(expr_ids(e), before.next_id() as int, self.next_id() as int)
    }

    /// The ids `ids` rise strictly within those handed out from `before` to
    /// `self`, as long as ids are left.
    pub open spec fn ids_ok(&self, before: Self, ids: Seq<usize>) -> bool {
        self.next_id() < usize::MAX ==> ascending_in(ids, before.next_id() as int, self.next_id() as int)
    }

    /// A statement `st` parsed from `before` to `self`, as `expr_parsed`
    /// describes for expressions.
    pub open spec fn stmt_parsed(&self, before: Self, st: Stmt) -> bool {
        &&& self.step_from(before)
        &&& stmt_within(st, self.src().len() as int)
        &&& (self.diags().len() == before.diags().len()) == !stmt_has_error(st)
        &&& self.ids_ok(before, stmt_ids(st))
    }

    /// A parser at the first token of `tokenstream`.
    pub fn new(mut tokenstream: T, diagnostics: &'diag mut Vec<Diagnostic>, source: &'src [u8]) -> (p: Self)
        requires
            tokenstream.stream_inv(),
            tokenstream.text() == source@,
        ensures
            p.wf(),
            p.src() == source@,
            p.diags() == old(diagnostics)@,
            p.next_id() == 0,
            p.tokens().len() == 1,
            p.stream() == tokenstream,
            p.peek_token() == tokenstream.ahead(0),
            p.tokens() == seq![tokenstream.ahead(0)],
    {
        let ghost origin = tokenstream;
        let _n: usize = source.len();
        let current = tokenstream.next();
        let prev = Token::dummy();
        let p = Self { tokenstream, diagnostics, current, prev, curr_nodeid: NodeId(0), source, read: Ghost(Seq::empty().push(current)), origin: Ghost(origin) };
        proof {
            assert forall|k: nat| #[trigger] p.tokenstream.ahead(k) == origin.ahead(p.read@.len() + k) by {
                assert(p.read@.len() + k == k + 1);
            }
        }
        p
    }

    /// The tokens read so far are the first ones of the stream the parser
    /// was given.
    pub proof fn lemma_tokens_read(&self)
        requires
            self.wf(),
        ensures
            forall|i: int| 0 <= i < self.tokens().len() ==> #[trigger] self.tokens()[i] == self.stream().ahead(i as nat),
    {
    }

    /// The number of diagnostics gathered so far.
    pub fn diagnostic_count(&self) -> (n: usize)
        ensures
            n == self.diags().len(),
    {
        self.diagnostics.len()
    }

    /// Hands over the diagnostics gathered so far, leaving none behind.
    pub fn take_diagnostics(&mut self) -> (d: Vec<Diagnostic>)
        ensures
            d@ == old(self).diags(),
    {
        let mut d: Vec<Diagnostic> = Vec::new();
        std::mem::swap(&mut d, self.diagnostics);
        d
    }

    /// The token under the cursor.
    pub fn peek(&self) -> (t: Token)
        ensures
            t == self.peek_token(),
    {
        self.current
    }

    /// Moves the cursor to the next token and gives the one it passed.
    pub fn advance(&mut self) -> (t: Token)
        requires
            old(self).wf(),
        ensures
            final(self).wf(),
            t == old(self).peek_token(),
            final(self).prev_token() == old(self).peek_token(),
            final(self).src() == old(self).src(),
            final(self).diags() == old(self).diags(),
            final(self).next_id() == old(self).next_id(),
            final(self).measure() <= old(self).measure(),
            !(old(self).peek_token().kind is Eof) ==> final(self).measure() < old(self).measure(),
            final(self).tokens() == old(self).tokens().push(final(self).peek_token()),
            continues(final(self).tokens(), old(self).tokens()),
            final(self).stream() == old(self).stream(),
            old(self).ready() ==> final(self).step_from(*old(self)),
    {
        self.prev = self.current;
        self.current = self.tokenstream.next();
        proof {
            lemma_continues_push(self.read@, self.current);
            self.read@ = self.read@.push(self.current);
            assert forall|k: nat| #[trigger] self.tokenstream.ahead(k) == self.origin@.ahead(self.read@.len() + k) by {
                assert(old(self).read@.len() + (k + 1) == self.read@.len() + k);
            }
        }
        proof {
            assert(self.diags().subrange(0, self.diags().len() as int) =~= self.diags());
        }
        self.prev
    }

    /// Hands out the next node id.
    pub fn next_node_id(&mut self) -> (id: NodeId)
        ensures
            id.0 == old(self).next_id(),
            final(self).next_id() == if old(self).next_id() < usize::MAX { (old(self).next_id() + 1) as int } else { old(self).next_id() as int },
            final(self).wf() == old(self).wf(),
            final(self).src() == old(self).src(),
            final(self).diags() == old(self).diags(),
            final(self).measure() == old(self).measure(),
            final(self).peek_token() == old(self).peek_token(),
            final(self).prev_token() == old(self).prev_token(),
            final(self).tokens() == old(self).tokens(),
            old(self).ready() ==> final(self).step_from(*old(self)),
    {
        proof {
            assert(self.diags().subrange(0, self.diags().len() as int) =~= self.diags());
            lemma_continues_refl(self.tokens());
        }
        let tmp = self.curr_nodeid;
        self.curr_nodeid.increment();
        tmp
    }

    /// Records an error about `span`.
    fn error(&mut self, message: String, span: Span)
        requires
            span_within(span, old(self).src().len() as int),
        ensures
            final(self).diags().len() == old(self).diags().len() + 1,
            reports_of(final(self).diags()) == reports_of(old(self).diags()) + err(message@, span),
            diags_extend(old(self).diags(), final(self).diags(), final(self).src().len() as int),
            final(self).wf() == old(self).wf(),
            final(self).src() == old(self).src(),
            final(self).next_id() == old(self).next_id(),
            final(self).measure() == old(self).measure(),
            final(self).peek_token() == old(self).peek_token(),
            final(self).prev_token() == old(self).prev_token(),
            final(self).tokens() == old(self).tokens(),
            old(self).ready() ==> final(self).step_from(*old(self)),
    {
        let ghost before = self.diags();
        let d = Diagnostic::new(message, span, Severity::Error);
        self.diagnostics.push(d);
        proof {
            lemma_diags_push(before, d);
            lemma_continues_refl(self.tokens());
            assert(self.diags().subrange(0, old(self).diags().len() as int) =~= old(self).diags());
        }
    }
}


/// A token that can begin a primary expression.
pub open spec fn starts_primary(k: TokenKind) -> bool {
    k is IntegerLiteral || k is OpenParen || k is Identifier || k is True || k is False
}

/// A token that can begin an expression.
pub open spec fn starts_expr(k: TokenKind) -> bool {
    k is IntegerLiteral || k is OpenParen || k is Identifier || k is True || k is False || k is Minus
        || k is PlusPlus || k is MinusMinus
}

/// `diags_extend` composes.
pub proof fn lemma_diags_trans(a: Seq<Diagnostic>, b: Seq<Diagnostic>, c: Seq<Diagnostic>, n: int)
    requires
        diags_extend(a, b, n),
        diags_extend(b, c, n),
    ensures
        diags_extend(a, c, n),
{
    assert(c.subrange(0, a.len() as int) =~= c.subrange(0, b.len() as int).subrange(0, a.len() as int));
    assert forall|i: int| a.len() <= i < c.len() implies span_within(#[trigger] c[i].span, n) by {
        if i < b.len() {
            assert(c[i] == c.subrange(0, b.len() as int)[i]);
        }
    }
}

pub proof fn lemma_ids_leaf(id: usize, lo: int, hi: int)
    requires
        id == lo,
        hi == lo + 1,
    ensures
        ascending_in(seq![id], lo, hi),
{
}

pub proof fn lemma_ids_unary(a: Seq<usize>, id: usize, lo: int, mid: int, hi: int)
    requires
        ascending_in(a, lo, mid),
        lo <= mid,
        id == mid,
        hi == mid + 1,
    ensures
        ascending_in(a + seq![id], lo, hi),
{
    lemma_ascending_concat(a, seq![id], lo, mid, hi);
}

pub proof fn lemma_ids_binary(a: Seq<usize>, b: Seq<usize>, id: usize, lo: int, m1: int, m2: int, hi: int)
    requires
        ascending_in(a, lo, m1),
        ascending_in(b, m1, m2),
        lo <= m1 <= m2,
        id == m2,
        hi == m2 + 1,
    ensures
        ascending_in(a + b + seq![id], lo, hi),
{
    lemma_ascending_concat(a, b, lo, m1, m2);
    lemma_ascending_concat(a + b, seq![id], lo, m2, hi);
}

impl<'src, 'diag, T: TokenStream> Parser<'src, 'diag, T> {
    proof fn lemma_ids_chain(a: Self, b: Self, c: Self, x: Seq<usize>, y: Seq<usize>)
        requires
            b.ids_ok(a, x),
            c.ids_ok(b, y),
            a.next_id() <= b.next_id() <= c.next_id(),
        ensures
            c.ids_ok(a, x + y),
    {
        if c.next_id() < usize::MAX {
            lemma_ascending_concat(x, y, a.next_id() as int, b.next_id() as int, c.next_id() as int);
        }
    }

    proof fn lemma_ids_own(a: Self, b: Self, c: Self, x: Seq<usize>, id: usize)
        requires
            b.ids_ok(a, x),
            a.next_id() <= b.next_id(),
            id == b.next_id(),
            c.next_id() == if b.next_id() < usize::MAX { (b.next_id() + 1) as int } else { b.next_id() as int },
        ensures
            c.ids_ok(a, x + seq![id]),
    {
        if c.next_id() < usize::MAX {
            lemma_ascending_concat(x, seq![id], a.next_id() as int, b.next_id() as int, c.next_id() as int);
        }
    }

    proof fn lemma_ids_empty(a: Self, b: Self)
        ensures
            b.ids_ok(a, seq![]),
    {
    }

    proof fn lemma_ids_stay(a: Self, b: Self, c: Self, x: Seq<usize>)
        requires
            b.ids_ok(a, x),
            c.next_id() == b.next_id(),
        ensures
            c.ids_ok(a, x),
    {
    }

    proof fn lemma_ids_widen(a: Self, b: Self, c: Self, x: Seq<usize>)
        requires
            c.ids_ok(b, x),
            a.next_id() <= b.next_id(),
        ensures
            c.ids_ok(a, x),
    {
    }
}

impl<'src, 'diag, T: TokenStream> Parser<'src, 'diag, T> {
    /// The token under the cursor of `a`, on tokens that continue those of
    /// a later parser `b`.
    proof fn lemma_cursor(a: Self, b: Self, ts: Seq<Token>)
        requires
            a.ready(),
            b.tokens() == a.tokens() || continues(b.tokens(), a.tokens()),
            continues(ts, b.tokens()),
        ensures
            continues(ts, a.tokens()),
            0 <= a.pos() < ts.len(),
            ts[a.pos()] == a.peek_token(),
            a.pos() <= b.pos(),
            b.pos() < ts.len(),
    {
        lemma_continues_refl(a.tokens());
        lemma_continues_trans(ts, a.tokens(), b.tokens());
        lemma_continues_len(b.tokens(), a.tokens());
        lemma_continues_len(ts, b.tokens());
        lemma_continues_at(ts, a.tokens(), a.pos());
    }

    /// A parser that can go on is one step from itself.
    pub proof fn lemma_step_refl(a: Self)
        requires
            a.ready(),
        ensures
            a.step_from(a),
    {
        assert(a.diags().subrange(0, a.diags().len() as int) =~= a.diags());
        lemma_continues_refl(a.tokens());
    }

    /// `step_from` composes.
    pub proof fn lemma_step_trans(a: Self, b: Self, c: Self)
        requires
            b.step_from(a),
            c.step_from(b),
        ensures
            c.step_from(a),
    {
        lemma_diags_trans(a.diags(), b.diags(), c.diags(), c.src().len() as int);
        lemma_continues_trans(c.tokens(), a.tokens(), b.tokens());
    }

    /// Moving the cursor before parsing does not change what was parsed.
    proof fn lemma_expr_prefix(a: Self, b: Self, c: Self, e: Expr)
        requires
            b.step_from(a),
            b.diags() == a.diags(),
            b.next_id() == a.next_id(),
            c.expr_parsed(b, e),
        ensures
            c.expr_parsed(a, e),
    {
        Self::lemma_step_trans(a, b, c);
    }

    /// Moving the cursor after parsing does not change what was parsed.
    proof fn lemma_expr_suffix(a: Self, b: Self, c: Self, e: Expr)
        requires
            b.expr_parsed(a, e),
            c.step_from(b),
            c.diags() == b.diags(),
            c.next_id() == b.next_id(),
        ensures
            c.expr_parsed(a, e),
    {
        Self::lemma_step_trans(a, b, c);
    }

    /// A node made from one parsed child: a unary operation.
    proof fn lemma_unary_node(a: Self, b: Self, c: Self, child: Expr, e: Expr)
        requires
            b.expr_parsed(a, child),
            c.step_from(b),
            c.diags() == b.diags(),
            e.id.0 == b.next_id(),
            c.next_id() == if b.next_id() < usize::MAX { (b.next_id() + 1) as int } else { b.next_id() as int },
            expr_ids(e) == expr_ids(child) + seq![e.id.0],
            expr_has_error(e) == expr_has_error(child),
            expr_within(e, c.src().len() as int),
        ensures
            c.expr_parsed(a, e),
    {
        Self::lemma_step_trans(a, b, c);
        if c.next_id() < usize::MAX {
            lemma_ids_unary(expr_ids(child), e.id.0, a.next_id() as int, b.next_id() as int, c.next_id() as int);
        }
    }

    /// A node made from two parsed children.
    proof fn lemma_binary_node(a: Self, b: Self, c: Self, d: Self, l: Expr, r: Expr, e: Expr)
        requires
            b.expr_parsed(a, l),
            c.expr_parsed(b, r),
            d.step_from(c),
            d.diags() == c.diags(),
            e.id.0 == c.next_id(),
            d.next_id() == if c.next_id() < usize::MAX { (c.next_id() + 1) as int } else { c.next_id() as int },
            expr_ids(e) == expr_ids(l) + expr_ids(r) + seq![e.id.0],
            expr_has_error(e) == (expr_has_error(l) || expr_has_error(r)),
            expr_within(e, d.src().len() as int),
        ensures
            d.expr_parsed(a, e),
    {
        Self::lemma_step_trans(a, b, c);
        Self::lemma_step_trans(a, c, d);
        if d.next_id() < usize::MAX {
            lemma_ids_binary(expr_ids(l), expr_ids(r), e.id.0, a.next_id() as int, b.next_id() as int,
                c.next_id() as int, d.next_id() as int);
        }
    }

    /// A leaf node made after an error was recorded, or a leaf with no error.
    proof fn lemma_leaf_node(a: Self, b: Self, c: Self, e: Expr)
        requires
            b.step_from(a),
            c.step_from(b),
            c.diags() == b.diags(),
            a.next_id() <= e.id.0,
            e.id.0 == b.next_id(),
            c.next_id() == if b.next_id() < usize::MAX { (b.next_id() + 1) as int } else { b.next_id() as int },
            expr_ids(e) == seq![e.id.0],
            (b.diags().len() == a.diags().len()) == !expr_has_error(e),
            expr_within(e, c.src().len() as int),
        ensures
            c.expr_parsed(a, e),
    {
        Self::lemma_step_trans(a, b, c);
        if c.next_id() < usize::MAX {
            lemma_ids_leaf(e.id.0, b.next_id() as int, c.next_id() as int);
        }
    }

    fn parse_expression(&mut self) -> (e: Expr)
        requires
            old(self).ready(),
        ensures
            final(self).expr_parsed(*old(self), e),
            starts_expr(old(self).peek_token().kind) ==> final(self).measure() < old(self).measure(),
            forall|ts: Seq<Token>| continues(ts, final(self).tokens()) ==> #[trigger] expression_at(ts, final(self).src(), old(self).pos(), old(self).next_id(), reports_of(old(self).diags()))
                == (expr_view(e), final(self).pos(), final(self).next_id(), reports_of(final(self).diags())),
        decreases old(self).measure(), 12nat,
    {
        let e = self.parse_assignment();
        proof {
            assert forall|ts: Seq<Token>| continues(ts, self.tokens()) implies #[trigger] expression_at(ts, self.src(), old(self).pos(), old(self).next_id(), reports_of(old(self).diags()))
                == (expr_view(e), self.pos(), self.next_id(), reports_of(self.diags())) by {
                assert(assignment_at(ts, self.src(), old(self).pos(), old(self).next_id(), reports_of(old(self).diags())) == (expr_view(e), self.pos(), self.next_id(), reports_of(self.diags())));
            }
        }
        e
    }

    fn parse_assignment(&mut self) -> (e: Expr)
        requires
            old(self).ready(),
        ensures
            final(self).expr_parsed(*old(self), e),
            starts_expr(old(self).peek_token().kind) ==> final(self).measure() < old(self).measure(),
            forall|ts: Seq<Token>| continues(ts, final(self).tokens()) ==> #[trigger] assignment_at(ts, final(self).src(), old(self).pos(), old(self).next_id(), reports_of(old(self).diags()))
                == (expr_view(e), final(self).pos(), final(self).next_id(), reports_of(final(self).diags())),
        decreases old(self).measure(), 11nat,
    {
        let left = self.parse_or();
        if self.peek().kind == TokenKind::Equal {
            let ghost s1 = *self;
            self.advance();
            let ghost s1b = *self;
            proof { Self::lemma_step_trans(*old(self), s1, s1b); }
            let right = self.parse_assignment();
            let ghost s2 = *self;
            proof { Self::lemma_expr_prefix(s1, s1b, s2, right); }
            let span = left.span.join(right.span);
            let id = self.next_node_id();
            let e = Expr::new(id, ExprKind::VarAssign(Box::new(left), Box::new(right)), span);
            proof {
                Self::lemma_binary_node(*old(self), s1, s2, *self, left, right, e);
            assert forall|ts: Seq<Token>| continues(ts, self.tokens()) implies #[trigger] assignment_at(ts, self.src(), old(self).pos(), old(self).next_id(), reports_of(old(self).diags()))
                == (expr_view(e), self.pos(), self.next_id(), reports_of(self.diags())) by {
                Self::lemma_cursor(*old(self), *self, ts);
                Self::lemma_cursor(s1, *self, ts);
                assert(binary_at(ts, self.src(), old(self).pos(), old(self).next_id(), reports_of(old(self).diags()), 6) == (expr_view(left), s1.pos(), s1.next_id(), reports_of(s1.diags())));
                assert(assignment_at(ts, self.src(), s1b.pos(), s1b.next_id(), reports_of(s1b.diags())) == (expr_view(right), s2.pos(), s2.next_id(), reports_of(s2.diags())));
            }
            }
            return e;
        }
        proof {
            assert forall|ts: Seq<Token>| continues(ts, self.tokens()) implies #[trigger] assignment_at(ts, self.src(), old(self).pos(), old(self).next_id(), reports_of(old(self).diags()))
                == (expr_view(left), self.pos(), self.next_id(), reports_of(self.diags())) by {
                Self::lemma_cursor(*old(self), *self, ts);
                Self::lemma_cursor(*self, *self, ts);
                assert(binary_at(ts, self.src(), old(self).pos(), old(self).next_id(), reports_of(old(self).diags()), 6) == (expr_view(left), self.pos(), self.next_id(), reports_of(self.diags())));
            }
        }
        left
    }

    fn parse_or(&mut self) -> (e: Expr)
        requires
            old(self).ready(),
        ensures
            final(self).expr_parsed(*old(self), e),
            starts_expr(old(self).peek_token().kind) ==> final(self).measure() < old(self).measure(),
            forall|ts: Seq<Token>| continues(ts, final(self).tokens()) ==> #[trigger] binary_at(ts, final(self).src(), old(self).pos(), old(self).next_id(), reports_of(old(self).diags()), 6)
                == (expr_view(e), final(self).pos(), final(self).next_id(), reports_of(final(self).diags())),
        decreases old(self).measure(), 10nat,
    {
        let mut left = self.parse_and();
        let start_span = left.span;
        proof {
            assert forall|ts: Seq<Token>| continues(ts, self.tokens()) implies #[trigger] binary_at(ts, self.src(), old(self).pos(), old(self).next_id(), reports_of(old(self).diags()), 6)
                == binary_rest(ts, self.src(), start_span, expr_view(left), self.pos(), self.next_id(), reports_of(self.diags()), 6) by {
                Self::lemma_cursor(*old(self), *self, ts);
                lemma_binary_first(ts, self.src(), left, old(self).pos(), self.pos(), old(self).next_id(), self.next_id(), reports_of(old(self).diags()), reports_of(self.diags()), 6);
            }
        }
        while self.peek().kind == TokenKind::Or
            invariant
                self.expr_parsed(*old(self), left),
                starts_expr(old(self).peek_token().kind) ==> self.measure() < old(self).measure(),
                span_within(start_span, self.src().len() as int),
                old(self).pos() <= self.pos(),
                forall|ts: Seq<Token>| continues(ts, self.tokens()) ==> #[trigger] binary_at(ts, self.src(), old(self).pos(), old(self).next_id(), reports_of(old(self).diags()), 6)
                    == binary_rest(ts, self.src(), start_span, expr_view(left), self.pos(), self.next_id(), reports_of(self.diags()), 6),
            decreases self.measure(),
        {
            let ghost s1 = *self;
            let op_span = self.advance().span;
            let ghost s1b = *self;
            proof { Self::lemma_step_trans(*old(self), s1, s1b); }
            let right = self.parse_and();
            let ghost s2 = *self;
            proof { Self::lemma_expr_prefix(s1, s1b, s2, right); }
            let right_span = right.span;
            let id = self.next_node_id();
            let e = Expr::new(id, ExprKind::BinaryOp(Spanned::new(BinOpKind::Or, op_span), Box::new(left), Box::new(right)), start_span.join(right_span));
            proof {
                Self::lemma_binary_node(*old(self), s1, s2, *self, left, right, e);
                assert forall|ts: Seq<Token>| continues(ts, self.tokens()) implies #[trigger] binary_at(ts, self.src(), old(self).pos(), old(self).next_id(), reports_of(old(self).diags()), 6)
                    == binary_rest(ts, self.src(), start_span, expr_view(e), self.pos(), self.next_id(), reports_of(self.diags()), 6) by {
                    Self::lemma_cursor(s1, *self, ts);
                    assert(s1b.pos() == s1.pos() + 1);
                    assert(binary_at(ts, self.src(), s1b.pos(), s1b.next_id(), reports_of(s1b.diags()), 5) == (expr_view(right), s2.pos(), s2.next_id(), reports_of(s2.diags())));
                    lemma_binary_step(ts, self.src(), start_span, left, right, e, s1.pos(), self.pos(), s1.next_id(), s2.next_id(), reports_of(s1.diags()), reports_of(s2.diags()), 6);
                }
            }
            left = e;
        }
        proof {
            assert forall|ts: Seq<Token>| continues(ts, self.tokens()) implies #[trigger] binary_at(ts, self.src(), old(self).pos(), old(self).next_id(), reports_of(old(self).diags()), 6)
                == (expr_view(left), self.pos(), self.next_id(), reports_of(self.diags())) by {
                Self::lemma_cursor(*self, *self, ts);
            }
        }
        left
    }

    fn parse_and(&mut self) -> (e: Expr)
        requires
            old(self).ready(),
        ensures
            final(self).expr_parsed(*old(self), e),
            starts_expr(old(self).peek_token().kind) ==> final(self).measure() < old(self).measure(),
            forall|ts: Seq<Token>| continues(ts, final(self).tokens()) ==> #[trigger] binary_at(ts, final(self).src(), old(self).pos(), old(self).next_id(), reports_of(old(self).diags()), 5)
                == (expr_view(e), final(self).pos(), final(self).next_id(), reports_of(final(self).diags())),
        decreases old(self).measure(), 9nat,
    {
        let mut left = self.parse_equality();
        let start_span = left.span;
        proof {
            assert forall|ts: Seq<Token>| continues(ts, self.tokens()) implies #[trigger] binary_at(ts, self.src(), old(self).pos(), old(self).next_id(), reports_of(old(self).diags()), 5)
                == binary_rest(ts, self.src(), start_span, expr_view(left), self.pos(), self.next_id(), reports_of(self.diags()), 5) by {
                Self::lemma_cursor(*old(self), *self, ts);
                lemma_binary_first(ts, self.src(), left, old(self).pos(), self.pos(), old(self).next_id(), self.next_id(), reports_of(old(self).diags()), reports_of(self.diags()), 5);
            }
        }
        while self.peek().kind == TokenKind::And
            invariant
                self.expr_parsed(*old(self), left),
                starts_expr(old(self).peek_token().kind) ==> self.measure() < old(self).measure(),
                span_within(start_span, self.src().len() as int),
                old(self).pos() <= self.pos(),
                forall|ts: Seq<Token>| continues(ts, self.tokens()) ==> #[trigger] binary_at(ts, self.src(), old(self).pos(), old(self).next_id(), reports_of(old(self).diags()), 5)
                    == binary_rest(ts, self.src(), start_span, expr_view(left), self.pos(), self.next_id(), reports_of(self.diags()), 5),
            decreases self.measure(),
        {
            let ghost s1 = *self;
            let op_span = self.advance().span;
            let ghost s1b = *self;
            proof { Self::lemma_step_trans(*old(self), s1, s1b); }
            let right = self.parse_equality();
            let ghost s2 = *self;
            proof { Self::lemma_expr_prefix(s1, s1b, s2, right); }
            let right_span = right.span;
            let id = self.next_node_id();
            let e = Expr::new(id, ExprKind::BinaryOp(Spanned::new(BinOpKind::And, op_span), Box::new(left), Box::new(right)), start_span.join(right_span));
            proof {
                Self::lemma_binary_node(*old(self), s1, s2, *self, left, right, e);
                assert forall|ts: Seq<Token>| continues(ts, self.tokens()) implies #[trigger] binary_at(ts, self.src(), old(self).pos(), old(self).next_id(), reports_of(old(self).diags()), 5)
                    == binary_rest(ts, self.src(), start_span, expr_view(e), self.pos(), self.next_id(), reports_of(self.diags()), 5) by {
                    Self::lemma_cursor(s1, *self, ts);
                    assert(s1b.pos() == s1.pos() + 1);
                    assert(binary_at(ts, self.src(), s1b.pos(), s1b.next_id(), reports_of(s1b.diags()), 4) == (expr_view(right), s2.pos(), s2.next_id(), reports_of(s2.diags())));
                    lemma_binary_step(ts, self.src(), start_span, left, right, e, s1.pos(), self.pos(), s1.next_id(), s2.next_id(), reports_of(s1.diags()), reports_of(s2.diags()), 5);
                }
            }
            left = e;
        }
        proof {
            assert forall|ts: Seq<Token>| continues(ts, self.tokens()) implies #[trigger] binary_at(ts, self.src(), old(self).pos(), old(self).next_id(), reports_of(old(self).diags()), 5)
                == (expr_view(left), self.pos(), self.next_id(), reports_of(self.diags())) by {
                Self::lemma_cursor(*self, *self, ts);
            }
        }
        left
    }

    fn parse_equality(&mut self) -> (e: Expr)
        requires
            old(self).ready(),
        ensures
            final(self).expr_parsed(*old(self), e),
            starts_expr(old(self).peek_token().kind) ==> final(self).measure() < old(self).measure(),
            forall|ts: Seq<Token>| continues(ts, final(self).tokens()) ==> #[trigger] binary_at(ts, final(self).src(), old(self).pos(), old(self).next_id(), reports_of(old(self).diags()), 4)
                == (expr_view(e), final(self).pos(), final(self).next_id(), reports_of(final(self).diags())),
        decreases old(self).measure(), 8nat,
    {
        let mut left = self.parse_comparison();
        let start_span = left.span;
        proof {
            assert forall|ts: Seq<Token>| continues(ts, self.tokens()) implies #[trigger] binary_at(ts, self.src(), old(self).pos(), old(self).next_id(), reports_of(old(self).diags()), 4)
                == binary_rest(ts, self.src(), start_span, expr_view(left), self.pos(), self.next_id(), reports_of(self.diags()), 4) by {
                Self::lemma_cursor(*old(self), *self, ts);
                lemma_binary_first(ts, self.src(), left, old(self).pos(), self.pos(), old(self).next_id(), self.next_id(), reports_of(old(self).diags()), reports_of(self.diags()), 4);
            }
        }
        while self.peek().kind == TokenKind::BangEqual || self.peek().kind == TokenKind::EqualEqual
            invariant
                self.expr_parsed(*old(self), left),
                starts_expr(old(self).peek_token().kind) ==> self.measure() < old(self).measure(),
                span_within(start_span, self.src().len() as int),
                old(self).pos() <= self.pos(),
                forall|ts: Seq<Token>| continues(ts, self.tokens()) ==> #[trigger] binary_at(ts, self.src(), old(self).pos(), old(self).next_id(), reports_of(old(self).diags()), 4)
                    == binary_rest(ts, self.src(), start_span, expr_view(left), self.pos(), self.next_id(), reports_of(self.diags()), 4),
            decreases self.measure(),
        {
            let ghost s1 = *self;
            let op = self.peek();
            self.advance();
            let ghost s1b = *self;
            proof { Self::lemma_step_trans(*old(self), s1, s1b); }
            let right = self.parse_comparison();
            let ghost s2 = *self;
            proof { Self::lemma_expr_prefix(s1, s1b, s2, right); }
            let right_span = right.span;
            let id = self.next_node_id();
            let e = Expr::new(id, ExprKind::BinaryOp(Spanned::new(binop_of(op.kind), op.span), Box::new(left), Box::new(right)), start_span.join(right_span));
            proof {
                Self::lemma_binary_node(*old(self), s1, s2, *self, left, right, e);
                assert forall|ts: Seq<Token>| continues(ts, self.tokens()) implies #[trigger] binary_at(ts, self.src(), old(self).pos(), old(self).next_id(), reports_of(old(self).diags()), 4)
                    == binary_rest(ts, self.src(), start_span, expr_view(e), self.pos(), self.next_id(), reports_of(self.diags()), 4) by {
                    Self::lemma_cursor(s1, *self, ts);
                    assert(s1b.pos() == s1.pos() + 1);
                    assert(binary_at(ts, self.src(), s1b.pos(), s1b.next_id(), reports_of(s1b.diags()), 3) == (expr_view(right), s2.pos(), s2.next_id(), reports_of(s2.diags())));
                    lemma_binary_step(ts, self.src(), start_span, left, right, e, s1.pos(), self.pos(), s1.next_id(), s2.next_id(), reports_of(s1.diags()), reports_of(s2.diags()), 4);
                }
            }
            left = e;
        }
        proof {
            assert forall|ts: Seq<Token>| continues(ts, self.tokens()) implies #[trigger] binary_at(ts, self.src(), old(self).pos(), old(self).next_id(), reports_of(old(self).diags()), 4)
                == (expr_view(left), self.pos(), self.next_id(), reports_of(self.diags())) by {
                Self::lemma_cursor(*self, *self, ts);
            }
        }
        left
    }

    fn parse_comparison(&mut self) -> (e: Expr)
        requires
            old(self).ready(),
        ensures
            final(self).expr_parsed(*old(self), e),
            starts_expr(old(self).peek_token().kind) ==> final(self).measure() < old(self).measure(),
            forall|ts: Seq<Token>| continues(ts, final(self).tokens()) ==> #[trigger] binary_at(ts, final(self).src(), old(self).pos(), old(self).next_id(), reports_of(old(self).diags()), 3)
                == (expr_view(e), final(self).pos(), final(self).next_id(), reports_of(final(self).diags())),
        decreases old(self).measure(), 7nat,
    {
        let mut left = self.parse_term();
        let start_span = left.span;
        proof {
            assert forall|ts: Seq<Token>| continues(ts, self.tokens()) implies #[trigger] binary_at(ts, self.src(), old(self).pos(), old(self).next_id(), reports_of(old(self).diags()), 3)
                == binary_rest(ts, self.src(), start_span, expr_view(left), self.pos(), self.next_id(), reports_of(self.diags()), 3) by {
                Self::lemma_cursor(*old(self), *self, ts);
                lemma_binary_first(ts, self.src(), left, old(self).pos(), self.pos(), old(self).next_id(), self.next_id(), reports_of(old(self).diags()), reports_of(self.diags()), 3);
            }
        }
        while self.peek().kind == TokenKind::LessThan || self.peek().kind == TokenKind::GreaterThan
            || self.peek().kind == TokenKind::GreaterEq || self.peek().kind == TokenKind::LessEq
            invariant
                self.expr_parsed(*old(self), left),
                starts_expr(old(self).peek_token().kind) ==> self.measure() < old(self).measure(),
                span_within(start_span, self.src().len() as int),
                old(self).pos() <= self.pos(),
                forall|ts: Seq<Token>| continues(ts, self.tokens()) ==> #[trigger] binary_at(ts, self.src(), old(self).pos(), old(self).next_id(), reports_of(old(self).diags()), 3)
                    == binary_rest(ts, self.src(), start_span, expr_view(left), self.pos(), self.next_id(), reports_of(self.diags()), 3),
            decreases self.measure(),
        {
            let ghost s1 = *self;
            let op = self.peek();
            self.advance();
            let ghost s1b = *self;
            proof { Self::lemma_step_trans(*old(self), s1, s1b); }
            let right = self.parse_term();
            let ghost s2 = *self;
            proof { Self::lemma_expr_prefix(s1, s1b, s2, right); }
            let right_span = right.span;
            let id = self.next_node_id();
            let e = Expr::new(id, ExprKind::BinaryOp(Spanned::new(binop_of(op.kind), op.span), Box::new(left), Box::new(right)), start_span.join(right_span));
            proof {
                Self::lemma_binary_node(*old(self), s1, s2, *self, left, right, e);
                assert forall|ts: Seq<Token>| continues(ts, self.tokens()) implies #[trigger] binary_at(ts, self.src(), old(self).pos(), old(self).next_id(), reports_of(old(self).diags()), 3)
                    == binary_rest(ts, self.src(), start_span, expr_view(e), self.pos(), self.next_id(), reports_of(self.diags()), 3) by {
                    Self::lemma_cursor(s1, *self, ts);
                    assert(s1b.pos() == s1.pos() + 1);
                    assert(binary_at(ts, self.src(), s1b.pos(), s1b.next_id(), reports_of(s1b.diags()), 2) == (expr_view(right), s2.pos(), s2.next_id(), reports_of(s2.diags())));
                    lemma_binary_step(ts, self.src(), start_span, left, right, e, s1.pos(), self.pos(), s1.next_id(), s2.next_id(), reports_of(s1.diags()), reports_of(s2.diags()), 3);
                }
            }
            left = e;
        }
        proof {
            assert forall|ts: Seq<Token>| continues(ts, self.tokens()) implies #[trigger] binary_at(ts, self.src(), old(self).pos(), old(self).next_id(), reports_of(old(self).diags()), 3)
                == (expr_view(left), self.pos(), self.next_id(), reports_of(self.diags())) by {
                Self::lemma_cursor(*self, *self, ts);
            }
        }
        left
    }

    fn parse_term(&mut self) -> (e: Expr)
        requires
            old(self).ready(),
        ensures
            final(self).expr_parsed(*old(self), e),
            starts_expr(old(self).peek_token().kind) ==> final(self).measure() < old(self).measure(),
            forall|ts: Seq<Token>| continues(ts, final(self).tokens()) ==> #[trigger] binary_at(ts, final(self).src(), old(self).pos(), old(self).next_id(), reports_of(old(self).diags()), 2)
                == (expr_view(e), final(self).pos(), final(self).next_id(), reports_of(final(self).diags())),
        decreases old(self).measure(), 6nat,
    {
        let mut left = self.parse_factor();
        let start_span = left.span;
        proof {
            assert forall|ts: Seq<Token>| continues(ts, self.tokens()) implies #[trigger] binary_at(ts, self.src(), old(self).pos(), old(self).next_id(), reports_of(old(self).diags()), 2)
                == binary_rest(ts, self.src(), start_span, expr_view(left), self.pos(), self.next_id(), reports_of(self.diags()), 2) by {
                Self::lemma_cursor(*old(self), *self, ts);
                lemma_binary_first(ts, self.src(), left, old(self).pos(), self.pos(), old(self).next_id(), self.next_id(), reports_of(old(self).diags()), reports_of(self.diags()), 2);
            }
        }
        while self.peek().kind == TokenKind::Plus || self.peek().kind == TokenKind::Minus
            invariant
                self.expr_parsed(*old(self), left),
                starts_expr(old(self).peek_token().kind) ==> self.measure() < old(self).measure(),
                span_within(start_span, self.src().len() as int),
                old(self).pos() <= self.pos(),
                forall|ts: Seq<Token>| continues(ts, self.tokens()) ==> #[trigger] binary_at(ts, self.src(), old(self).pos(), old(self).next_id(), reports_of(old(self).diags()), 2)
                    == binary_rest(ts, self.src(), start_span, expr_view(left), self.pos(), self.next_id(), reports_of(self.diags()), 2),
            decreases self.measure(),
        {
            let ghost s1 = *self;
            let op = self.advance();
            let ghost s1b = *self;
            proof { Self::lemma_step_trans(*old(self), s1, s1b); }
            let right = self.parse_factor();
            let ghost s2 = *self;
            proof { Self::lemma_expr_prefix(s1, s1b, s2, right); }
            let right_span = right.span;
            let kind = if op.kind == TokenKind::Plus { BinOpKind::Add } else { BinOpKind::Sub };
            let id = self.next_node_id();
            let e = Expr::new(id, ExprKind::BinaryOp(Spanned::new(kind, op.span), Box::new(left), Box::new(right)), start_span.join(right_span));
            proof {
                Self::lemma_binary_node(*old(self), s1, s2, *self, left, right, e);
                assert forall|ts: Seq<Token>| continues(ts, self.tokens()) implies #[trigger] binary_at(ts, self.src(), old(self).pos(), old(self).next_id(), reports_of(old(self).diags()), 2)
                    == binary_rest(ts, self.src(), start_span, expr_view(e), self.pos(), self.next_id(), reports_of(self.diags()), 2) by {
                    Self::lemma_cursor(s1, *self, ts);
                    assert(s1b.pos() == s1.pos() + 1);
                    assert(binary_at(ts, self.src(), s1b.pos(), s1b.next_id(), reports_of(s1b.diags()), 1) == (expr_view(right), s2.pos(), s2.next_id(), reports_of(s2.diags())));
                    lemma_binary_step(ts, self.src(), start_span, left, right, e, s1.pos(), self.pos(), s1.next_id(), s2.next_id(), reports_of(s1.diags()), reports_of(s2.diags()), 2);
                }
            }
            left = e;
        }
        proof {
            assert forall|ts: Seq<Token>| continues(ts, self.tokens()) implies #[trigger] binary_at(ts, self.src(), old(self).pos(), old(self).next_id(), reports_of(old(self).diags()), 2)
                == (expr_view(left), self.pos(), self.next_id(), reports_of(self.diags())) by {
                Self::lemma_cursor(*self, *self, ts);
            }
        }
        left
    }

    fn parse_factor(&mut self) -> (e: Expr)
        requires
            old(self).ready(),
        ensures
            final(self).expr_parsed(*old(self), e),
            starts_expr(old(self).peek_token().kind) ==> final(self).measure() < old(self).measure(),
            forall|ts: Seq<Token>| continues(ts, final(self).tokens()) ==> #[trigger] binary_at(ts, final(self).src(), old(self).pos(), old(self).next_id(), reports_of(old(self).diags()), 1)
                == (expr_view(e), final(self).pos(), final(self).next_id(), reports_of(final(self).diags())),
        decreases old(self).measure(), 5nat,
    {
        let mut left = self.parse_unary();
        let start_span = left.span;
        proof {
            assert forall|ts: Seq<Token>| continues(ts, self.tokens()) implies #[trigger] binary_at(ts, self.src(), old(self).pos(), old(self).next_id(), reports_of(old(self).diags()), 1)
                == binary_rest(ts, self.src(), start_span, expr_view(left), self.pos(), self.next_id(), reports_of(self.diags()), 1) by {
                Self::lemma_cursor(*old(self), *self, ts);
                lemma_binary_first(ts, self.src(), left, old(self).pos(), self.pos(), old(self).next_id(), self.next_id(), reports_of(old(self).diags()), reports_of(self.diags()), 1);
            }
        }
        while self.peek().kind == TokenKind::Star || self.peek().kind == TokenKind::Slash
            invariant
                self.expr_parsed(*old(self), left),
                starts_expr(old(self).peek_token().kind) ==> self.measure() < old(self).measure(),
                span_within(start_span, self.src().len() as int),
                old(self).pos() <= self.pos(),
                forall|ts: Seq<Token>| continues(ts, self.tokens()) ==> #[trigger] binary_at(ts, self.src(), old(self).pos(), old(self).next_id(), reports_of(old(self).diags()), 1)
                    == binary_rest(ts, self.src(), start_span, expr_view(left), self.pos(), self.next_id(), reports_of(self.diags()), 1),
            decreases self.measure(),
        {
            let ghost s1 = *self;
            let op = self.advance();
            let ghost s1b = *self;
            proof { Self::lemma_step_trans(*old(self), s1, s1b); }
            let right = self.parse_unary();
            let ghost s2 = *self;
            proof { Self::lemma_expr_prefix(s1, s1b, s2, right); }
            let right_span = right.span;
            let kind = if op.kind == TokenKind::Star { BinOpKind::Mul } else { BinOpKind::Div };
            let id = self.next_node_id();
            let e = Expr::new(id, ExprKind::BinaryOp(Spanned::new(kind, op.span), Box::new(left), Box::new(right)), start_span.join(right_span));
            proof {
                Self::lemma_binary_node(*old(self), s1, s2, *self, left, right, e);
                assert forall|ts: Seq<Token>| continues(ts, self.tokens()) implies #[trigger] binary_at(ts, self.src(), old(self).pos(), old(self).next_id(), reports_of(old(self).diags()), 1)
                    == binary_rest(ts, self.src(), start_span, expr_view(e), self.pos(), self.next_id(), reports_of(self.diags()), 1) by {
                    Self::lemma_cursor(s1, *self, ts);
                    assert(s1b.pos() == s1.pos() + 1);
                    assert(unary_at(ts, self.src(), s1b.pos(), s1b.next_id(), reports_of(s1b.diags())) == (expr_view(right), s2.pos(), s2.next_id(), reports_of(s2.diags())));
                    lemma_binary_step(ts, self.src(), start_span, left, right, e, s1.pos(), self.pos(), s1.next_id(), s2.next_id(), reports_of(s1.diags()), reports_of(s2.diags()), 1);
                }
            }
            left = e;
        }
        proof {
            assert forall|ts: Seq<Token>| continues(ts, self.tokens()) implies #[trigger] binary_at(ts, self.src(), old(self).pos(), old(self).next_id(), reports_of(old(self).diags()), 1)
                == (expr_view(left), self.pos(), self.next_id(), reports_of(self.diags())) by {
                Self::lemma_cursor(*self, *self, ts);
            }
        }
        left
    }

    fn parse_unary(&mut self) -> (e: Expr)
        requires
            old(self).ready(),
        ensures
            final(self).expr_parsed(*old(self), e),
            starts_expr(old(self).peek_token().kind) ==> final(self).measure() < old(self).measure(),
            forall|ts: Seq<Token>| continues(ts, final(self).tokens()) ==> #[trigger] unary_at(ts, final(self).src(), old(self).pos(), old(self).next_id(), reports_of(old(self).diags()))
                == (expr_view(e), final(self).pos(), final(self).next_id(), reports_of(final(self).diags())),
        decreases old(self).measure(), 4nat,
    {
        let k = self.peek().kind;
        if k == TokenKind::Minus || k == TokenKind::PlusPlus || k == TokenKind::MinusMinus {
            let op_span = self.advance().span;
            let ghost s1b = *self;
            let operand = self.parse_unary();
            let ghost s2 = *self;
            proof { Self::lemma_expr_prefix(*old(self), s1b, s2, operand); }
            let operand_span = operand.span;
            let id = self.next_node_id();
            let e = if k == TokenKind::Minus {
                Expr::new(id, ExprKind::UnaryOp(Spanned::new(UnaryOpKind::Negate, op_span), Box::new(operand)), operand_span.join(op_span))
            } else if k == TokenKind::PlusPlus {
                Expr::new(id, ExprKind::UnaryOp(Spanned::new(UnaryOpKind::PreIncrement, op_span), Box::new(operand)), op_span.join(operand_span))
            } else {
                Expr::new(id, ExprKind::UnaryOp(Spanned::new(UnaryOpKind::PreDecrement, op_span), Box::new(operand)), op_span.join(operand_span))
            };
            proof {
                Self::lemma_unary_node(*old(self), s2, *self, operand, e);
            assert forall|ts: Seq<Token>| continues(ts, self.tokens()) implies #[trigger] unary_at(ts, self.src(), old(self).pos(), old(self).next_id(), reports_of(old(self).diags()))
                == (expr_view(e), self.pos(), self.next_id(), reports_of(self.diags())) by {
                Self::lemma_cursor(*old(self), *self, ts);
                assert(s1b.pos() == old(self).pos() + 1);
                assert(unary_at(ts, self.src(), s1b.pos(), s1b.next_id(), reports_of(s1b.diags())) == (expr_view(operand), s2.pos(), s2.next_id(), reports_of(s2.diags())));
            }
            }
            return e;
        }
        let e = self.parse_postfix();
        proof {
            assert forall|ts: Seq<Token>| continues(ts, self.tokens()) implies #[trigger] unary_at(ts, self.src(), old(self).pos(), old(self).next_id(), reports_of(old(self).diags()))
                == (expr_view(e), self.pos(), self.next_id(), reports_of(self.diags())) by {
                Self::lemma_cursor(*old(self), *self, ts);
                assert(postfix_at(ts, self.src(), old(self).pos(), old(self).next_id(), reports_of(old(self).diags())) == (expr_view(e), self.pos(), self.next_id(), reports_of(self.diags())));
            }
        }
        e
    }

    fn parse_postfix(&mut self) -> (e: Expr)
        requires
            old(self).ready(),
        ensures
            final(self).expr_parsed(*old(self), e),
            starts_primary(old(self).peek_token().kind) ==> final(self).measure() < old(self).measure(),
            forall|ts: Seq<Token>| continues(ts, final(self).tokens()) ==> #[trigger] postfix_at(ts, final(self).src(), old(self).pos(), old(self).next_id(), reports_of(old(self).diags()))
                == (expr_view(e), final(self).pos(), final(self).next_id(), reports_of(final(self).diags())),
        decreases old(self).measure(), 3nat,
    {
        let mut expr = self.parse_primary();
        proof {
            assert forall|ts: Seq<Token>| continues(ts, self.tokens()) implies #[trigger] postfix_at(ts, self.src(), old(self).pos(), old(self).next_id(), reports_of(old(self).diags()))
                == postfix_rest(ts, self.src(), expr_view(expr), self.pos(), self.next_id(), reports_of(self.diags())) by {
                Self::lemma_cursor(*old(self), *self, ts);
                Self::lemma_cursor(*self, *self, ts);
                assert(primary_at(ts, self.src(), old(self).pos(), old(self).next_id(), reports_of(old(self).diags())) == (expr_view(expr), self.pos(), self.next_id(), reports_of(self.diags())));
            }
        }
        while self.peek().kind == TokenKind::PlusPlus || self.peek().kind == TokenKind::MinusMinus
            invariant
                self.expr_parsed(*old(self), expr),
                starts_primary(old(self).peek_token().kind) ==> self.measure() < old(self).measure(),
                forall|ts: Seq<Token>| continues(ts, self.tokens()) ==> #[trigger] postfix_at(ts, self.src(), old(self).pos(), old(self).next_id(), reports_of(old(self).diags()))
                    == postfix_rest(ts, self.src(), expr_view(expr), self.pos(), self.next_id(), reports_of(self.diags())),
            decreases self.measure(),
        {
            let ghost s1 = *self;
            let op_kind = self.peek().kind;
            let op_span = self.advance().span;
            let ghost s1b = *self;
            proof { Self::lemma_expr_suffix(*old(self), s1, s1b, expr); }
            let expr_span = expr.span;
            let id = self.next_node_id();
            let e = if op_kind == TokenKind::PlusPlus {
                Expr::new(id, ExprKind::UnaryOp(Spanned::new(UnaryOpKind::PostIncrement, op_span), Box::new(expr)), op_span.join(expr_span))
            } else {
                Expr::new(id, ExprKind::UnaryOp(Spanned::new(UnaryOpKind::PostDecrement, op_span), Box::new(expr)), op_span.join(expr_span))
            };
            proof {
                Self::lemma_unary_node(*old(self), s1b, *self, expr, e);
            assert forall|ts: Seq<Token>| continues(ts, self.tokens()) implies #[trigger] postfix_at(ts, self.src(), old(self).pos(), old(self).next_id(), reports_of(old(self).diags()))
                == postfix_rest(ts, self.src(), expr_view(e), self.pos(), self.next_id(), reports_of(self.diags())) by {
                Self::lemma_cursor(s1, *self, ts);
                assert(self.pos() == s1.pos() + 1);
                assert(postfix_rest(ts, self.src(), expr_view(expr), s1.pos(), s1.next_id(), reports_of(s1.diags()))
                    == postfix_rest(ts, self.src(), expr_view(e), self.pos(), self.next_id(), reports_of(self.diags())));
            }
            }
            expr = e;
        }
        proof {
            assert forall|ts: Seq<Token>| continues(ts, self.tokens()) implies #[trigger] postfix_at(ts, self.src(), old(self).pos(), old(self).next_id(), reports_of(old(self).diags()))
                == (expr_view(expr), self.pos(), self.next_id(), reports_of(self.diags())) by {
                Self::lemma_cursor(*self, *self, ts);
            }
        }
        expr
    }

    #[verifier::rlimit(60)]
    #[verifier::spinoff_prover]
    fn parse_primary(&mut self) -> (e: Expr)
        requires
            old(self).ready(),
        ensures
            final(self).expr_parsed(*old(self), e),
            starts_primary(old(self).peek_token().kind) ==> final(self).measure() < old(self).measure(),
            forall|ts: Seq<Token>| continues(ts, final(self).tokens()) ==> #[trigger] primary_at(ts, final(self).src(), old(self).pos(), old(self).next_id(), reports_of(old(self).diags()))
                == (expr_view(e), final(self).pos(), final(self).next_id(), reports_of(final(self).diags())),
        decreases old(self).measure(), 2nat,
    {
        let k = self.peek().kind;
        if k == TokenKind::IntegerLiteral {
            self.advance();
            let ghost s1 = *self;
            let lexeme = Span::retrieve_slice(self.source, &self.prev.span);
            proof {
                let sp = self.prev.span;
                assert(lexeme@ =~= self.source@.subrange(sp.start_spec() as int, sp.end_spec()));
                assert forall|i: int| 0 <= i < lexeme@.len() implies crate::text::is_digit_spec(#[trigger] lexeme@[i]) by {
                    assert(lexeme@[i] == self.source@[sp.start_spec() + i]);
                    assert(crate::text::in_class(self.source@[sp.start_spec() + i], crate::text::ByteClass::Digit));
                }
            }
            let value = parse_decimal_u128(lexeme);
            let id = self.next_node_id();
            let e = Expr::new(id, ExprKind::Literal(LitKind::Int(value)), self.prev.span);
            proof {
                Self::lemma_leaf_node(*old(self), s1, *self, e);
                assert forall|ts: Seq<Token>| continues(ts, self.tokens()) implies #[trigger] primary_at(ts, self.src(), old(self).pos(), old(self).next_id(), reports_of(old(self).diags()))
                    == (expr_view(e), self.pos(), self.next_id(), reports_of(self.diags())) by {
                    Self::lemma_cursor(*old(self), *self, ts);
                }
            }
            return e;
        } else if k == TokenKind::OpenParen {
            self.advance();
            let open_span = self.prev.span;
            let ghost s1 = *self;
            let mut expr = self.parse_expression();
            let ghost s2 = *self;
            proof { Self::lemma_expr_prefix(*old(self), s1, s2, expr); }
            if self.peek().kind != TokenKind::CloseParen {
                let span = self.advance().span;
                self.error(owned("expected ')' after expression"), span);
                let ghost s3 = *self;
                proof {
                    Self::lemma_step_trans(*old(self), s2, s3);
                }
                let id = self.next_node_id();
                let e = Expr::new(id, ExprKind::Error, span);
                proof {
                    Self::lemma_leaf_node(*old(self), s3, *self, e);
                    assert forall|ts: Seq<Token>| continues(ts, self.tokens()) implies #[trigger] primary_at(ts, self.src(), old(self).pos(), old(self).next_id(), reports_of(old(self).diags()))
                        == (expr_view(e), self.pos(), self.next_id(), reports_of(self.diags())) by {
                        Self::lemma_cursor(*old(self), *self, ts);
                        Self::lemma_cursor(s2, *self, ts);
                        assert(s1.pos() == old(self).pos() + 1);
                        assert(expression_at(ts, self.src(), s1.pos(), s1.next_id(), reports_of(s1.diags())) == (expr_view(expr), s2.pos(), s2.next_id(), reports_of(s2.diags())));
                    }
                }
                return e;
            }
            self.advance();
            let close_span = self.prev.span;
            let ghost s3 = *self;
            proof { Self::lemma_expr_suffix(*old(self), s2, *self, expr); }
            let ghost inner = expr;
            expr.span = expr.span.join(open_span).join(close_span);
            proof {
                assert forall|ts: Seq<Token>| continues(ts, self.tokens()) implies #[trigger] primary_at(ts, self.src(), old(self).pos(), old(self).next_id(), reports_of(old(self).diags()))
                    == (expr_view(expr), self.pos(), self.next_id(), reports_of(self.diags())) by {
                    Self::lemma_cursor(*old(self), *self, ts);
                    Self::lemma_cursor(s2, *self, ts);
                    assert(s1.pos() == old(self).pos() + 1);
                    assert(expression_at(ts, self.src(), s1.pos(), s1.next_id(), reports_of(s1.diags())) == (expr_view(inner), s2.pos(), s2.next_id(), reports_of(s2.diags())));
                    assert(expr_view(expr).kind == expr_view(inner).kind);
                }
            }
            return expr;
        } else if k == TokenKind::Identifier {
            let sp = self.peek().span;
            let name = vstd::slice::slice_to_vec(Span::retrieve_slice(self.source, &sp));
            let span = self.advance().span;
            let ghost s1 = *self;
            let id = self.next_node_id();
            let e = Expr::new(id, ExprKind::Variable(name), span);
            proof {
                Self::lemma_leaf_node(*old(self), s1, *self, e);
                assert forall|ts: Seq<Token>| continues(ts, self.tokens()) implies #[trigger] primary_at(ts, self.src(), old(self).pos(), old(self).next_id(), reports_of(old(self).diags()))
                    == (expr_view(e), self.pos(), self.next_id(), reports_of(self.diags())) by {
                    Self::lemma_cursor(*old(self), *self, ts);
                }
            }
            return e;
        } else if k == TokenKind::True || k == TokenKind::False {
            self.advance();
            let ghost s1 = *self;
            let id = self.next_node_id();
            let e = Expr::new(id, ExprKind::Literal(LitKind::Bool(self.prev.kind.to_bool())), self.prev.span);
            proof {
                Self::lemma_leaf_node(*old(self), s1, *self, e);
                assert forall|ts: Seq<Token>| continues(ts, self.tokens()) implies #[trigger] primary_at(ts, self.src(), old(self).pos(), old(self).next_id(), reports_of(old(self).diags()))
                    == (expr_view(e), self.pos(), self.next_id(), reports_of(self.diags())) by {
                    Self::lemma_cursor(*old(self), *self, ts);
                }
            }
            return e;
        } else {
            let span = self.peek().span;
            let msg = unexpected_token_message(Span::retrieve_slice(self.source, &span));
            self.error(msg, span);
            let ghost s1 = *self;
            let id = self.next_node_id();
            let e = Expr::new(id, ExprKind::Error, span);
            proof {
                Self::lemma_leaf_node(*old(self), s1, *self, e);
                assert forall|ts: Seq<Token>| continues(ts, self.tokens()) implies #[trigger] primary_at(ts, self.src(), old(self).pos(), old(self).next_id(), reports_of(old(self).diags()))
                    == (expr_view(e), self.pos(), self.next_id(), reports_of(self.diags())) by {
                    Self::lemma_cursor(*old(self), *self, ts);
                }
            }
            return e;
        }
    }
}

/// The binary operator a comparison or equality token stands for.
fn binop_of(kind: TokenKind) -> (k: BinOpKind)
    requires
        kind is EqualEqual || kind is BangEqual || kind is LessThan || kind is GreaterThan
            || kind is LessEq || kind is GreaterEq,
    ensures
        k == match kind {
            TokenKind::EqualEqual => BinOpKind::EqEq,
            TokenKind::BangEqual => BinOpKind::BangEq,
            TokenKind::LessThan => BinOpKind::LessThan,
            TokenKind::GreaterThan => BinOpKind::GreaterThan,
            TokenKind::LessEq => BinOpKind::LessEq,
            _ => BinOpKind::GreaterEq,
        },
{
    match kind {
        TokenKind::EqualEqual => BinOpKind::EqEq,
        TokenKind::BangEqual => BinOpKind::BangEq,
        TokenKind::LessThan => BinOpKind::LessThan,
        TokenKind::GreaterThan => BinOpKind::GreaterThan,
        TokenKind::LessEq => BinOpKind::LessEq,
        _ => BinOpKind::GreaterEq,
    }
}


impl<'src, 'diag, T: TokenStream> Parser<'src, 'diag, T> {
    /// A statement node whose children were parsed from `a` to `b`, made
    /// with id `b.next_id()`.
    proof fn lemma_stmt_node(a: Self, b: Self, c: Self, st: Stmt, kids: Seq<usize>, kids_err: bool)
        requires
            b.step_from(a),
            c.step_from(b),
            c.diags() == b.diags(),
            b.ids_ok(a, kids),
            st.id.0 == b.next_id(),
            c.next_id() == if b.next_id() < usize::MAX { (b.next_id() + 1) as int } else { b.next_id() as int },
            stmt_ids(st) == kids + seq![st.id.0],
            stmt_has_error(st) == kids_err,
            (b.diags().len() == a.diags().len()) == !kids_err,
            stmt_within(st, c.src().len() as int),
        ensures
            c.stmt_parsed(a, st),
    {
        Self::lemma_step_trans(a, b, c);
        Self::lemma_ids_own(a, b, c, kids, st.id.0);
    }

    /// An `Error` statement made after an error was recorded.
    proof fn lemma_stmt_error(a: Self, b: Self, c: Self, st: Stmt)
        requires
            b.step_from(a),
            b.diags().len() > a.diags().len(),
            c.step_from(b),
            c.diags() == b.diags(),
            st.id.0 == b.next_id(),
            c.next_id() == if b.next_id() < usize::MAX { (b.next_id() + 1) as int } else { b.next_id() as int },
            st.kind == StmtKind::Error,
            span_within(st.span, c.src().len() as int),
        ensures
            c.stmt_parsed(a, st),
    {
        Self::lemma_ids_empty(a, b);
        assert(stmt_ids(st) =~= Seq::<usize>::empty() + seq![st.id.0]);
        Self::lemma_stmt_node(a, b, c, st, Seq::<usize>::empty(), true);
    }

    /// Skips tokens up to the end of the statement in error: past the next
    /// `;`, or up to a token that begins a statement or a block.
    fn sync(&mut self)
        requires
            old(self).ready(),
        ensures
            final(self).step_from(*old(self)),
            final(self).diags() == old(self).diags(),
            final(self).next_id() == old(self).next_id(),
            forall|ts: Seq<Token>| continues(ts, final(self).tokens()) ==> #[trigger] sync_at(ts, old(self).pos()) == final(self).pos(),
    {
        proof { Self::lemma_step_refl(*self); }
        while self.peek().kind != TokenKind::Eof
            invariant
                self.step_from(*old(self)),
                self.diags() == old(self).diags(),
                self.next_id() == old(self).next_id(),
                forall|ts: Seq<Token>| continues(ts, self.tokens()) ==> #[trigger] sync_at(ts, old(self).pos()) == sync_at(ts, self.pos()),
            decreases self.measure(),
        {
            let kind = self.peek().kind;
            match kind {
                TokenKind::Semicolon => {
                    let ghost s1 = *self;
                    self.advance();
                    proof {
                        Self::lemma_step_trans(*old(self), s1, *self);
                        assert forall|ts: Seq<Token>| continues(ts, self.tokens()) implies #[trigger] sync_at(ts, old(self).pos()) == self.pos() by {
                            Self::lemma_cursor(s1, *self, ts);
                        }
                    }
                    return;
                },
                TokenKind::Print | TokenKind::Let | TokenKind::If | TokenKind::While | TokenKind::For
                | TokenKind::Break | TokenKind::Continue | TokenKind::OpenBrace => {
                    proof {
                        assert forall|ts: Seq<Token>| continues(ts, self.tokens()) implies #[trigger] sync_at(ts, old(self).pos()) == self.pos() by {
                            Self::lemma_cursor(*self, *self, ts);
                        }
                    }
                    return;
                },
                _ => {
                    let ghost s1 = *self;
                    self.advance();
                    proof {
                        Self::lemma_step_trans(*old(self), s1, *self);
                        assert forall|ts: Seq<Token>| continues(ts, self.tokens()) implies #[trigger] sync_at(ts, old(self).pos()) == sync_at(ts, self.pos()) by {
                            Self::lemma_cursor(s1, *self, ts);
                            assert(self.pos() == s1.pos() + 1);
                        }
                    }
                },
            }
        }
        proof {
            assert forall|ts: Seq<Token>| continues(ts, self.tokens()) implies #[trigger] sync_at(ts, old(self).pos()) == self.pos() by {
                Self::lemma_cursor(*self, *self, ts);
            }
        }
    }

    /// Parses statements up to the end of the source.
    pub fn parse(&mut self) -> (program: Program)
        requires
            old(self).ready(),
        ensures
            final(self).step_from(*old(self)),
            program.functions@.len() == 0,
            stmts_within(program.body@, final(self).src().len() as int),
            (final(self).diags().len() == old(self).diags().len()) == !stmts_have_error(program.body@),
            final(self).ids_ok(*old(self), stmts_ids(program.body@)),
            final(self).peek_token().kind is Eof,
            forall|ts: Seq<Token>| continues(ts, final(self).tokens()) ==> #[trigger] program_rest(ts, final(self).src(), old(self).pos(), old(self).next_id(), reports_of(old(self).diags()), seq![])
                == (stmts_view(program.body@), final(self).pos(), final(self).next_id(), reports_of(final(self).diags())),
    {
        let mut program = Program::new();
        proof {
            Self::lemma_step_refl(*self);
            assert(stmts_ids(program.body@) =~= Seq::<usize>::empty());
            assert(stmts_view(program.body@) =~= Seq::<StmtView>::empty());
        }
        while self.peek().kind != TokenKind::Eof
            invariant
                self.step_from(*old(self)),
                program.functions@.len() == 0,
                stmts_within(program.body@, self.src().len() as int),
                (self.diags().len() == old(self).diags().len()) == !stmts_have_error(program.body@),
                self.ids_ok(*old(self), stmts_ids(program.body@)),
                forall|ts: Seq<Token>| continues(ts, self.tokens()) ==> #[trigger] program_rest(ts, self.src(), old(self).pos(), old(self).next_id(), reports_of(old(self).diags()), seq![])
                    == program_rest(ts, self.src(), self.pos(), self.next_id(), reports_of(self.diags()), stmts_view(program.body@)),
            decreases self.measure(),
        {
            let ghost s1 = *self;
            let ghost body0 = program.body@;
            let stmt = self.parse_statement();
            let ghost st = stmt;
            program.add(stmt);
            proof {
                Self::lemma_step_trans(*old(self), s1, *self);
                assert(program.body@.drop_last() =~= body0);
                Self::lemma_ids_chain(*old(self), s1, *self, stmts_ids(body0), stmt_ids(st));
                assert(stmts_view(program.body@) == stmts_view(body0).push(stmt_view(st)));
                assert forall|ts: Seq<Token>| continues(ts, self.tokens()) implies #[trigger] program_rest(ts, self.src(), old(self).pos(), old(self).next_id(), reports_of(old(self).diags()), seq![])
                    == program_rest(ts, self.src(), self.pos(), self.next_id(), reports_of(self.diags()), stmts_view(program.body@)) by {
                    Self::lemma_cursor(s1, *self, ts);
                    assert(statement_at(ts, self.src(), s1.pos(), s1.next_id(), reports_of(s1.diags())) == (stmt_view(st), self.pos(), self.next_id(), reports_of(self.diags())));
                }
            }
        }
        proof {
            assert forall|ts: Seq<Token>| continues(ts, self.tokens()) implies #[trigger] program_rest(ts, self.src(), old(self).pos(), old(self).next_id(), reports_of(old(self).diags()), seq![])
                == (stmts_view(program.body@), self.pos(), self.next_id(), reports_of(self.diags())) by {
                Self::lemma_cursor(*self, *self, ts);
            }
        }
        program
    }

    /// Parses one statement. Each statement that does not begin at `Eof`
    /// takes at least one token.
    pub fn parse_statement(&mut self) -> (st: Stmt)
        requires
            old(self).ready(),
        ensures
            final(self).stmt_parsed(*old(self), st),
            !(old(self).peek_token().kind is Eof) ==> final(self).measure() < old(self).measure(),
            final(self).pos() > old(self).pos(),
            forall|ts: Seq<Token>| continues(ts, final(self).tokens()) ==> #[trigger] statement_at(ts, final(self).src(), old(self).pos(), old(self).next_id(), reports_of(old(self).diags())) == (stmt_view(st), final(self).pos(), final(self).next_id(), reports_of(final(self).diags())),
        decreases old(self).measure(), 20nat,
    {
        match self.peek().kind {
            TokenKind::Print => {
                let st = self.parse_print();
                proof {
                    assert forall|ts: Seq<Token>| continues(ts, self.tokens()) implies #[trigger] statement_at(ts, self.src(), old(self).pos(), old(self).next_id(), reports_of(old(self).diags()))
                        == (stmt_view(st), self.pos(), self.next_id(), reports_of(self.diags())) by {
                        Self::lemma_cursor(*old(self), *self, ts);
                        assert(print_at(ts, self.src(), old(self).pos(), old(self).next_id(), reports_of(old(self).diags())) == (stmt_view(st), self.pos(), self.next_id(), reports_of(self.diags())));
                    }
                }
                st
            },
            TokenKind::IntegerLiteral | TokenKind::OpenParen | TokenKind::Identifier => {
                let st = self.parse_exprstmt();
                proof {
                    assert forall|ts: Seq<Token>| continues(ts, self.tokens()) implies #[trigger] statement_at(ts, self.src(), old(self).pos(), old(self).next_id(), reports_of(old(self).diags()))
                        == (stmt_view(st), self.pos(), self.next_id(), reports_of(self.diags())) by {
                        Self::lemma_cursor(*old(self), *self, ts);
                        assert(exprstmt_at(ts, self.src(), old(self).pos(), old(self).next_id(), reports_of(old(self).diags())) == (stmt_view(st), self.pos(), self.next_id(), reports_of(self.diags())));
                    }
                }
                st
            },
            TokenKind::Let => {
                let st = self.parse_var_decl();
                proof {
                    assert forall|ts: Seq<Token>| continues(ts, self.tokens()) implies #[trigger] statement_at(ts, self.src(), old(self).pos(), old(self).next_id(), reports_of(old(self).diags()))
                        == (stmt_view(st), self.pos(), self.next_id(), reports_of(self.diags())) by {
                        Self::lemma_cursor(*old(self), *self, ts);
                        assert(var_decl_at(ts, self.src(), old(self).pos(), old(self).next_id(), reports_of(old(self).diags())) == (stmt_view(st), self.pos(), self.next_id(), reports_of(self.diags())));
                    }
                }
                st
            },
            TokenKind::OpenBrace => {
                let st = self.parse_block();
                proof {
                    assert forall|ts: Seq<Token>| continues(ts, self.tokens()) implies #[trigger] statement_at(ts, self.src(), old(self).pos(), old(self).next_id(), reports_of(old(self).diags()))
                        == (stmt_view(st), self.pos(), self.next_id(), reports_of(self.diags())) by {
                        Self::lemma_cursor(*old(self), *self, ts);
                        assert(block_at(ts, self.src(), old(self).pos(), old(self).next_id(), reports_of(old(self).diags())) == (stmt_view(st), self.pos(), self.next_id(), reports_of(self.diags())));
                    }
                }
                st
            },
            TokenKind::If => {
                let st = self.parse_if();
                proof {
                    assert forall|ts: Seq<Token>| continues(ts, self.tokens()) implies #[trigger] statement_at(ts, self.src(), old(self).pos(), old(self).next_id(), reports_of(old(self).diags()))
                        == (stmt_view(st), self.pos(), self.next_id(), reports_of(self.diags())) by {
                        Self::lemma_cursor(*old(self), *self, ts);
                        assert(if_at(ts, self.src(), old(self).pos(), old(self).next_id(), reports_of(old(self).diags())) == (stmt_view(st), self.pos(), self.next_id(), reports_of(self.diags())));
                    }
                }
                st
            },
            TokenKind::While => {
                let st = self.parse_while();
                proof {
                    assert forall|ts: Seq<Token>| continues(ts, self.tokens()) implies #[trigger] statement_at(ts, self.src(), old(self).pos(), old(self).next_id(), reports_of(old(self).diags()))
                        == (stmt_view(st), self.pos(), self.next_id(), reports_of(self.diags())) by {
                        Self::lemma_cursor(*old(self), *self, ts);
                        assert(while_at(ts, self.src(), old(self).pos(), old(self).next_id(), reports_of(old(self).diags())) == (stmt_view(st), self.pos(), self.next_id(), reports_of(self.diags())));
                    }
                }
                st
            },
            TokenKind::Break => {
                let st = self.parse_break();
                proof {
                    assert forall|ts: Seq<Token>| continues(ts, self.tokens()) implies #[trigger] statement_at(ts, self.src(), old(self).pos(), old(self).next_id(), reports_of(old(self).diags()))
                        == (stmt_view(st), self.pos(), self.next_id(), reports_of(self.diags())) by {
                        Self::lemma_cursor(*old(self), *self, ts);
                        assert(jump_at(ts, self.src(), old(self).pos(), old(self).next_id(), reports_of(old(self).diags())) == (stmt_view(st), self.pos(), self.next_id(), reports_of(self.diags())));
                    }
                }
                st
            },
            TokenKind::Continue => {
                let st = self.parse_continue();
                proof {
                    assert forall|ts: Seq<Token>| continues(ts, self.tokens()) implies #[trigger] statement_at(ts, self.src(), old(self).pos(), old(self).next_id(), reports_of(old(self).diags()))
                        == (stmt_view(st), self.pos(), self.next_id(), reports_of(self.diags())) by {
                        Self::lemma_cursor(*old(self), *self, ts);
                        assert(jump_at(ts, self.src(), old(self).pos(), old(self).next_id(), reports_of(old(self).diags())) == (stmt_view(st), self.pos(), self.next_id(), reports_of(self.diags())));
                    }
                }
                st
            },
            TokenKind::For => {
                let st = self.parse_for();
                proof {
                    assert forall|ts: Seq<Token>| continues(ts, self.tokens()) implies #[trigger] statement_at(ts, self.src(), old(self).pos(), old(self).next_id(), reports_of(old(self).diags()))
                        == (stmt_view(st), self.pos(), self.next_id(), reports_of(self.diags())) by {
                        Self::lemma_cursor(*old(self), *self, ts);
                        assert(for_at(ts, self.src(), old(self).pos(), old(self).next_id(), reports_of(old(self).diags())) == (stmt_view(st), self.pos(), self.next_id(), reports_of(self.diags())));
                    }
                }
                st
            },
            _ => {
                let span = self.peek().span;
                self.error(owned("unexpected token"), span);
                let ghost s1 = *self;
                self.advance();
                let ghost s2 = *self;
                proof { Self::lemma_step_trans(*old(self), s1, s2); }
                let id = self.next_node_id();
                let st = Stmt::new(id, StmtKind::Error, span);
                proof {
                    Self::lemma_stmt_error(*old(self), s2, *self, st);
                    assert forall|ts: Seq<Token>| continues(ts, self.tokens()) implies #[trigger] statement_at(ts, self.src(), old(self).pos(), old(self).next_id(), reports_of(old(self).diags()))
                        == (stmt_view(st), self.pos(), self.next_id(), reports_of(self.diags())) by {
                        Self::lemma_cursor(*old(self), *self, ts);
                    }
                }
                st
            },
        }
    }

    /// A statement kept whole, or an `Error` statement in its place, after
    /// an error about `span` and a resync.
    fn fail_and_sync(&mut self, message: &str, span: Span) -> (st: Stmt)
        requires
            old(self).ready(),
            span_within(span, old(self).src().len() as int),
        ensures
            final(self).step_from(*old(self)),
            final(self).diags().len() > old(self).diags().len(),
            reports_of(final(self).diags()) == reports_of(old(self).diags()) + err(message@, span),
            st.kind == StmtKind::Error,
            st.span == span,
            st.id.0 == old(self).next_id(),
            final(self).next_id() == if old(self).next_id() < usize::MAX { (old(self).next_id() + 1) as int } else { old(self).next_id() as int },
            forall|ts: Seq<Token>| continues(ts, final(self).tokens()) ==> #[trigger] sync_at(ts, old(self).pos()) == final(self).pos(),
    {
        self.error(owned(message), span);
        let ghost s1 = *self;
        self.sync();
        proof { Self::lemma_step_trans(*old(self), s1, *self); }
        let ghost s2 = *self;
        let id = self.next_node_id();
        proof {
            Self::lemma_step_trans(*old(self), s2, *self);
            assert forall|ts: Seq<Token>| continues(ts, self.tokens()) implies #[trigger] sync_at(ts, old(self).pos()) == self.pos() by {
                assert(s1.pos() == old(self).pos());
                assert(sync_at(ts, s1.pos()) == s2.pos());
            }
        }
        Stmt::new(id, StmtKind::Error, span)
    }

    fn parse_break(&mut self) -> (st: Stmt)
        requires
            old(self).ready(),
            old(self).peek_token().kind is Break,
        ensures
            final(self).stmt_parsed(*old(self), st),
            final(self).measure() < old(self).measure(),
            final(self).pos() > old(self).pos(),
            forall|ts: Seq<Token>| continues(ts, final(self).tokens()) ==> #[trigger] jump_at(ts, final(self).src(), old(self).pos(), old(self).next_id(), reports_of(old(self).diags())) == (stmt_view(st), final(self).pos(), final(self).next_id(), reports_of(final(self).diags())),
    {
        let span = self.advance().span;
        let ghost s1 = *self;
        if self.peek().kind != TokenKind::Semicolon {
            let sp = self.peek().span;
            self.error(owned("expected ';' after break statement"), sp);
            let ghost s2 = *self;
            proof { Self::lemma_step_trans(*old(self), s1, s2); }
            let id = self.next_node_id();
            let st = Stmt::new(id, StmtKind::Error, sp);
            proof {
                Self::lemma_stmt_error(*old(self), s2, *self, st);
            assert forall|ts: Seq<Token>| continues(ts, self.tokens()) implies #[trigger] jump_at(ts, self.src(), old(self).pos(), old(self).next_id(), reports_of(old(self).diags()))
                == (stmt_view(st), self.pos(), self.next_id(), reports_of(self.diags())) by {
                Self::lemma_cursor(*old(self), *self, ts);
                Self::lemma_cursor(s1, *self, ts);
            }
            }
            return st;
        }
        let end_span = self.advance().span;
        let ghost s2 = *self;
        proof {
            Self::lemma_step_trans(*old(self), s1, s2);
            Self::lemma_ids_empty(*old(self), s2);
        }
        let id = self.next_node_id();
        let st = Stmt::new(id, StmtKind::Break, span.join(end_span));
        proof {
            assert(stmt_ids(st) =~= Seq::<usize>::empty() + seq![st.id.0]);
            Self::lemma_stmt_node(*old(self), s2, *self, st, Seq::<usize>::empty(), false);
            assert forall|ts: Seq<Token>| continues(ts, self.tokens()) implies #[trigger] jump_at(ts, self.src(), old(self).pos(), old(self).next_id(), reports_of(old(self).diags()))
                == (stmt_view(st), self.pos(), self.next_id(), reports_of(self.diags())) by {
                Self::lemma_cursor(*old(self), *self, ts);
                Self::lemma_cursor(s1, *self, ts);
            }
        }
        st
    }

    fn parse_continue(&mut self) -> (st: Stmt)
        requires
            old(self).ready(),
            old(self).peek_token().kind is Continue,
        ensures
            final(self).stmt_parsed(*old(self), st),
            final(self).measure() < old(self).measure(),
            final(self).pos() > old(self).pos(),
            forall|ts: Seq<Token>| continues(ts, final(self).tokens()) ==> #[trigger] jump_at(ts, final(self).src(), old(self).pos(), old(self).next_id(), reports_of(old(self).diags())) == (stmt_view(st), final(self).pos(), final(self).next_id(), reports_of(final(self).diags())),
    {
        let span = self.advance().span;
        let ghost s1 = *self;
        if self.peek().kind != TokenKind::Semicolon {
            let sp = self.peek().span;
            self.error(owned("expected ';' after continue statement"), sp);
            let ghost s2 = *self;
            proof { Self::lemma_step_trans(*old(self), s1, s2); }
            let id = self.next_node_id();
            let st = Stmt::new(id, StmtKind::Error, sp);
            proof {
                Self::lemma_stmt_error(*old(self), s2, *self, st);
            assert forall|ts: Seq<Token>| continues(ts, self.tokens()) implies #[trigger] jump_at(ts, self.src(), old(self).pos(), old(self).next_id(), reports_of(old(self).diags()))
                == (stmt_view(st), self.pos(), self.next_id(), reports_of(self.diags())) by {
                Self::lemma_cursor(*old(self), *self, ts);
                Self::lemma_cursor(s1, *self, ts);
            }
            }
            return st;
        }
        let end_span = self.advance().span;
        let ghost s2 = *self;
        proof {
            Self::lemma_step_trans(*old(self), s1, s2);
            Self::lemma_ids_empty(*old(self), s2);
        }
        let id = self.next_node_id();
        let st = Stmt::new(id, StmtKind::Continue, span.join(end_span));
        proof {
            assert(stmt_ids(st) =~= Seq::<usize>::empty() + seq![st.id.0]);
            Self::lemma_stmt_node(*old(self), s2, *self, st, Seq::<usize>::empty(), false);
            assert forall|ts: Seq<Token>| continues(ts, self.tokens()) implies #[trigger] jump_at(ts, self.src(), old(self).pos(), old(self).next_id(), reports_of(old(self).diags()))
                == (stmt_view(st), self.pos(), self.next_id(), reports_of(self.diags())) by {
                Self::lemma_cursor(*old(self), *self, ts);
                Self::lemma_cursor(s1, *self, ts);
            }
        }
        st
    }

    fn parse_exprstmt(&mut self) -> (st: Stmt)
        requires
            old(self).ready(),
            starts_expr(old(self).peek_token().kind),
        ensures
            final(self).stmt_parsed(*old(self), st),
            final(self).measure() < old(self).measure(),
            final(self).pos() > old(self).pos(),
            forall|ts: Seq<Token>| continues(ts, final(self).tokens()) ==> #[trigger] exprstmt_at(ts, final(self).src(), old(self).pos(), old(self).next_id(), reports_of(old(self).diags())) == (stmt_view(st), final(self).pos(), final(self).next_id(), reports_of(final(self).diags())),
        decreases old(self).measure(), 19nat,
    {
        let expr = self.parse_expression();
        let ghost s1 = *self;
        if self.peek().kind != TokenKind::Semicolon {
            let span = self.advance().span;
            let ghost s2 = *self;
            proof { Self::lemma_step_trans(*old(self), s1, s2); }
            let st = self.fail_and_sync("expected ';' after statement", span);
            proof {
                let s3 = *self;
                assert forall|ts: Seq<Token>| continues(ts, self.tokens()) implies #[trigger] exprstmt_at(ts, self.src(), old(self).pos(), old(self).next_id(), reports_of(old(self).diags()))
                    == (stmt_view(st), self.pos(), self.next_id(), reports_of(self.diags())) by {
                    lemma_continues_trans(self.tokens(), s1.tokens(), s2.tokens());
                    Self::lemma_cursor(s1, *self, ts);
                    assert(expression_at(ts, self.src(), old(self).pos(), old(self).next_id(), reports_of(old(self).diags())) == (expr_view(expr), s1.pos(), s1.next_id(), reports_of(s1.diags())));
                    assert(sync_at(ts, s2.pos()) == self.pos());
                }
                Self::lemma_step_trans(*old(self), s2, s3);
                Self::lemma_ids_empty(*old(self), s3);
                assert(stmt_ids(st) =~= seq![st.id.0]);
                if s3.next_id() < usize::MAX {
                    crate::parse::ast::lemma_ascending_widen(seq![st.id.0], s2.next_id() as int, s3.next_id() as int, old(self).next_id() as int, s3.next_id() as int);
                }
            }
            return st;
        }
        let span = expr.span.join(self.advance().span);
        let ghost s2 = *self;
        proof { Self::lemma_expr_suffix(*old(self), s1, s2, expr); }
        let id = self.next_node_id();
        let ghost e = expr;
        let st = Stmt::new(id, StmtKind::ExprStmt(Box::new(expr)), span);
        proof {
            Self::lemma_stmt_node(*old(self), s2, *self, st, expr_ids(e), expr_has_error(e));
            assert forall|ts: Seq<Token>| continues(ts, self.tokens()) implies #[trigger] exprstmt_at(ts, self.src(), old(self).pos(), old(self).next_id(), reports_of(old(self).diags()))
                == (stmt_view(st), self.pos(), self.next_id(), reports_of(self.diags())) by {
                Self::lemma_cursor(s1, *self, ts);
                assert(expression_at(ts, self.src(), old(self).pos(), old(self).next_id(), reports_of(old(self).diags())) == (expr_view(e), s1.pos(), s1.next_id(), reports_of(s1.diags())));
            }
        }
        st
    }
}

impl<'src, 'diag, T: TokenStream> Parser<'src, 'diag, T> {
    /// An `Error` statement from `fail_and_sync` after parsing from `a` to `b`.
    proof fn lemma_failed(a: Self, b: Self, c: Self, st: Stmt)
        requires
            b.step_from(a),
            c.step_from(b),
            c.diags().len() > b.diags().len(),
            st.kind == StmtKind::Error,
            span_within(st.span, c.src().len() as int),
            st.id.0 == b.next_id(),
            c.next_id() == if b.next_id() < usize::MAX { (b.next_id() + 1) as int } else { b.next_id() as int },
        ensures
            c.stmt_parsed(a, st),
    {
        Self::lemma_step_trans(a, b, c);
        assert(stmt_ids(st) =~= seq![st.id.0]);
        if c.next_id() < usize::MAX {
            crate::parse::ast::lemma_ids_leaf_in(st.id.0, a.next_id() as int, c.next_id() as int);
        }
    }

    #[verifier::rlimit(60)]
    #[verifier::spinoff_prover]
    fn parse_print(&mut self) -> (st: Stmt)
        requires
            old(self).ready(),
            old(self).peek_token().kind is Print,
        ensures
            final(self).stmt_parsed(*old(self), st),
            final(self).measure() < old(self).measure(),
            final(self).pos() > old(self).pos(),
            forall|ts: Seq<Token>| continues(ts, final(self).tokens()) ==> #[trigger] print_at(ts, final(self).src(), old(self).pos(), old(self).next_id(), reports_of(old(self).diags())) == (stmt_view(st), final(self).pos(), final(self).next_id(), reports_of(final(self).diags())),
        decreases old(self).measure(), 19nat,
    {
        let span = self.advance().span;
        let ghost s1 = *self;
        if self.peek().kind != TokenKind::OpenParen {
            let span = self.advance().span;
            let ghost s2 = *self;
            proof { Self::lemma_step_trans(*old(self), s1, s2); }
            let st = self.fail_and_sync("expected '(' after keyword 'print'", span);
            proof {
                Self::lemma_failed(*old(self), s2, *self, st);
                assert forall|ts: Seq<Token>| continues(ts, self.tokens()) implies #[trigger] print_at(ts, self.src(), old(self).pos(), old(self).next_id(), reports_of(old(self).diags()))
                    == (stmt_view(st), self.pos(), self.next_id(), reports_of(self.diags())) by {
                    lemma_continues_trans(self.tokens(), s1.tokens(), s2.tokens());
                    Self::lemma_cursor(*old(self), *self, ts);
                    Self::lemma_cursor(s1, *self, ts);
                    assert(sync_at(ts, s2.pos()) == self.pos());
                }
            }
            return st;
        }
        self.advance();
        let ghost s2 = *self;
        proof { Self::lemma_step_trans(*old(self), s1, s2); }
        let expr = self.parse_expression();
        let ghost s3 = *self;
        proof { Self::lemma_expr_prefix(*old(self), s2, s3, expr); }
        if self.peek().kind != TokenKind::CloseParen {
            let span = self.advance().span;
            let ghost s4 = *self;
            proof { Self::lemma_step_trans(*old(self), s3, s4); }
            let st = self.fail_and_sync("expected ')' after expression", span);
            proof {
                Self::lemma_failed(*old(self), s4, *self, st);
                assert forall|ts: Seq<Token>| continues(ts, self.tokens()) implies #[trigger] print_at(ts, self.src(), old(self).pos(), old(self).next_id(), reports_of(old(self).diags()))
                    == (stmt_view(st), self.pos(), self.next_id(), reports_of(self.diags())) by {
                    lemma_continues_trans(self.tokens(), s3.tokens(), s4.tokens());
                    lemma_continues_trans(self.tokens(), s2.tokens(), s3.tokens());
                    lemma_continues_trans(self.tokens(), s1.tokens(), s2.tokens());
                    Self::lemma_cursor(*old(self), *self, ts);
                    Self::lemma_cursor(s1, *self, ts);
                    Self::lemma_cursor(s3, *self, ts);
                    assert(expression_at(ts, self.src(), s2.pos(), s2.next_id(), reports_of(s2.diags())) == (expr_view(expr), s3.pos(), s3.next_id(), reports_of(s3.diags())));
                    assert(sync_at(ts, s4.pos()) == self.pos());
                }
            }
            return st;
        }
        self.advance();
        let ghost s4 = *self;
        proof { Self::lemma_expr_suffix(*old(self), s3, s4, expr); }
        if self.peek().kind != TokenKind::Semicolon {
            let span = self.advance().span;
            let ghost s5 = *self;
            proof { Self::lemma_step_trans(*old(self), s4, s5); }
            let st = self.fail_and_sync("expected ';' after statement", span);
            proof {
                Self::lemma_failed(*old(self), s5, *self, st);
                assert forall|ts: Seq<Token>| continues(ts, self.tokens()) implies #[trigger] print_at(ts, self.src(), old(self).pos(), old(self).next_id(), reports_of(old(self).diags()))
                    == (stmt_view(st), self.pos(), self.next_id(), reports_of(self.diags())) by {
                    lemma_continues_trans(self.tokens(), s4.tokens(), s5.tokens());
                    lemma_continues_trans(self.tokens(), s3.tokens(), s4.tokens());
                    lemma_continues_trans(self.tokens(), s2.tokens(), s3.tokens());
                    lemma_continues_trans(self.tokens(), s1.tokens(), s2.tokens());
                    Self::lemma_cursor(*old(self), *self, ts);
                    Self::lemma_cursor(s1, *self, ts);
                    Self::lemma_cursor(s3, *self, ts);
                    Self::lemma_cursor(s4, *self, ts);
                    assert(expression_at(ts, self.src(), s2.pos(), s2.next_id(), reports_of(s2.diags())) == (expr_view(expr), s3.pos(), s3.next_id(), reports_of(s3.diags())));
                    assert(sync_at(ts, s5.pos()) == self.pos());
                }
            }
            return st;
        }
        let id = self.next_node_id();
        let ghost s5 = *self;
        let end = self.advance().span;
        let ghost e = expr;
        let st = Stmt::new(id, StmtKind::Print(Box::new(expr)), end.join(span));
        proof {
            Self::lemma_step_trans(*old(self), s4, s5);
            Self::lemma_step_trans(*old(self), s5, *self);
            Self::lemma_ids_own(*old(self), s4, *self, expr_ids(e), id.0);
            assert forall|ts: Seq<Token>| continues(ts, self.tokens()) implies #[trigger] print_at(ts, self.src(), old(self).pos(), old(self).next_id(), reports_of(old(self).diags()))
                == (stmt_view(st), self.pos(), self.next_id(), reports_of(self.diags())) by {
                lemma_continues_trans(self.tokens(), s4.tokens(), s5.tokens());
                lemma_continues_trans(self.tokens(), s3.tokens(), s4.tokens());
                lemma_continues_trans(self.tokens(), s2.tokens(), s3.tokens());
                lemma_continues_trans(self.tokens(), s1.tokens(), s2.tokens());
                Self::lemma_cursor(*old(self), *self, ts);
                Self::lemma_cursor(s1, *self, ts);
                Self::lemma_cursor(s3, *self, ts);
                Self::lemma_cursor(s4, *self, ts);
                assert(expression_at(ts, self.src(), s2.pos(), s2.next_id(), reports_of(s2.diags())) == (expr_view(e), s3.pos(), s3.next_id(), reports_of(s3.diags())));
            }
        }
        st
    }

    fn parse_block(&mut self) -> (st: Stmt)
        requires
            old(self).ready(),
            old(self).peek_token().kind is OpenBrace,
        ensures
            final(self).stmt_parsed(*old(self), st),
            final(self).measure() < old(self).measure(),
            final(self).pos() > old(self).pos(),
            forall|ts: Seq<Token>| continues(ts, final(self).tokens()) ==> #[trigger] block_at(ts, final(self).src(), old(self).pos(), old(self).next_id(), reports_of(old(self).diags())) == (stmt_view(st), final(self).pos(), final(self).next_id(), reports_of(final(self).diags())),
        decreases old(self).measure(), 19nat,
    {
        let start_span = self.advance().span;
        let ghost s1 = *self;
        let mut stmts: Vec<Stmt> = Vec::new();
        proof {
            assert(stmts_ids(stmts@) =~= Seq::<usize>::empty());
            assert(stmts_view(stmts@) =~= Seq::<StmtView>::empty());
            Self::lemma_step_refl(s1);
        }
        while self.peek().kind != TokenKind::Eof
            invariant
                forall|ts: Seq<Token>| continues(ts, self.tokens()) ==> #[trigger] block_rest(ts, self.src(), s1.pos(), s1.next_id(), reports_of(s1.diags()), seq![])
                    == block_rest(ts, self.src(), self.pos(), self.next_id(), reports_of(self.diags()), stmts_view(stmts@)),
                s1.pos() == old(self).pos() + 1,
                self.step_from(s1),
                s1.step_from(*old(self)),
                s1.diags() == old(self).diags(),
                s1.next_id() == old(self).next_id(),
                self.measure() <= s1.measure(),
                s1.measure() < old(self).measure(),
                span_within(start_span, self.src().len() as int),
                stmts_within(stmts@, self.src().len() as int),
                (self.diags().len() == s1.diags().len()) == !stmts_have_error(stmts@),
                self.ids_ok(s1, stmts_ids(stmts@)),
            ensures
                self.peek_token().kind is Eof || self.peek_token().kind is CloseBrace,
            decreases self.measure(),
        {
            if self.peek().kind == TokenKind::CloseBrace {
                break;
            }
            let ghost s2 = *self;
            let ghost body0 = stmts@;
            let stmt = self.parse_statement();
            let ghost st = stmt;
            stmts.push(stmt);
            proof {
                Self::lemma_step_trans(s1, s2, *self);
                assert(stmts@.drop_last() =~= body0);
                Self::lemma_ids_chain(s1, s2, *self, stmts_ids(body0), stmt_ids(st));
                assert(stmts_view(stmts@) == stmts_view(body0).push(stmt_view(st)));
                assert forall|ts: Seq<Token>| continues(ts, self.tokens()) implies #[trigger] block_rest(ts, self.src(), s1.pos(), s1.next_id(), reports_of(s1.diags()), seq![])
                    == block_rest(ts, self.src(), self.pos(), self.next_id(), reports_of(self.diags()), stmts_view(stmts@)) by {
                    Self::lemma_cursor(s2, *self, ts);
                    assert(statement_at(ts, self.src(), s2.pos(), s2.next_id(), reports_of(s2.diags())) == (stmt_view(st), self.pos(), self.next_id(), reports_of(self.diags())));
                }
            }
        }
        let ghost s2 = *self;
        let end_token = self.advance();
        let ghost s3 = *self;
        proof {
            Self::lemma_step_trans(*old(self), s1, s2);
            Self::lemma_step_trans(*old(self), s2, s3);
            Self::lemma_ids_widen(*old(self), s1, s2, stmts_ids(stmts@));
            Self::lemma_ids_stay(*old(self), s2, s3, stmts_ids(stmts@));
        }
        if end_token.kind != TokenKind::CloseBrace {
            self.error(owned("unterminated block"), end_token.span);
            let ghost s4 = *self;
            let id = self.next_node_id();
            let st = Stmt::new(id, StmtKind::Error, end_token.span);
            proof {
                Self::lemma_step_trans(s3, s4, *self);
                Self::lemma_failed(*old(self), s3, *self, st);
                assert forall|ts: Seq<Token>| continues(ts, self.tokens()) implies #[trigger] block_at(ts, self.src(), old(self).pos(), old(self).next_id(), reports_of(old(self).diags()))
                    == (stmt_view(st), self.pos(), self.next_id(), reports_of(self.diags())) by {
                    lemma_continues_trans(self.tokens(), s2.tokens(), s3.tokens());
                    Self::lemma_cursor(*old(self), *self, ts);
                    Self::lemma_cursor(s2, *self, ts);
                    assert(block_rest(ts, self.src(), s1.pos(), s1.next_id(), reports_of(s1.diags()), seq![]) == (stmts_view(stmts@), s2.pos(), s2.next_id(), reports_of(s2.diags())));
                }
            }
            return st;
        }
        let id = self.next_node_id();
        let ghost body = stmts@;
        let st = Stmt::new(id, StmtKind::Block(stmts), start_span.join(end_token.span));
        proof {
            Self::lemma_stmt_node(*old(self), s3, *self, st, stmts_ids(body), stmts_have_error(body));
            assert forall|ts: Seq<Token>| continues(ts, self.tokens()) implies #[trigger] block_at(ts, self.src(), old(self).pos(), old(self).next_id(), reports_of(old(self).diags()))
                == (stmt_view(st), self.pos(), self.next_id(), reports_of(self.diags())) by {
                lemma_continues_trans(self.tokens(), s2.tokens(), s3.tokens());
                Self::lemma_cursor(*old(self), *self, ts);
                Self::lemma_cursor(s2, *self, ts);
                assert(block_rest(ts, self.src(), s1.pos(), s1.next_id(), reports_of(s1.diags()), seq![]) == (stmts_view(body), s2.pos(), s2.next_id(), reports_of(s2.diags())));
            }
        }
        st
    }
}

impl<'src, 'diag, T: TokenStream> Parser<'src, 'diag, T> {
    /// An `Error` statement made right after an error was recorded.
    fn error_stmt(&mut self, message: &str, span: Span) -> (st: Stmt)
        requires
            old(self).ready(),
            span_within(span, old(self).src().len() as int),
        ensures
            final(self).step_from(*old(self)),
            final(self).diags().len() > old(self).diags().len(),
            reports_of(final(self).diags()) == reports_of(old(self).diags()) + err(message@, span),
            st.kind == StmtKind::Error,
            st.span == span,
            st.id.0 == old(self).next_id(),
            final(self).next_id() == if old(self).next_id() < usize::MAX { (old(self).next_id() + 1) as int } else { old(self).next_id() as int },
            final(self).measure() == old(self).measure(),
            final(self).tokens() == old(self).tokens(),
    {
        self.error(owned(message), span);
        let ghost s1 = *self;
        let id = self.next_node_id();
        proof { Self::lemma_step_trans(*old(self), s1, *self); }
        Stmt::new(id, StmtKind::Error, span)
    }

    /// The keyword under the cursor and a condition in parentheses after
    /// it: the keyword's span and the condition, or the `Error` statement in
    /// their place.
    fn parse_condition(&mut self) -> (r: Result<(Span, Expr), Stmt>)
        requires
            old(self).ready(),
        ensures
            final(self).measure() < old(self).measure() || old(self).peek_token().kind is Eof,
            final(self).pos() > old(self).pos(),
            match r {
                Ok((sp, c)) => {
                    &&& sp == old(self).peek_token().span
                    &&& final(self).expr_parsed(*old(self), c)
                },
                Err(st) => final(self).stmt_parsed(*old(self), st),
            },
            forall|ts: Seq<Token>| continues(ts, final(self).tokens()) ==> #[trigger] condition_at(ts, final(self).src(), old(self).pos(), old(self).next_id(), reports_of(old(self).diags()))
                == match r {
                    Ok((_, c)) => Ok((expr_view(c), final(self).pos(), final(self).next_id(), reports_of(final(self).diags()))),
                    Err(st) => Err((stmt_view(st), final(self).pos(), final(self).next_id(), reports_of(final(self).diags()))),
                },
    {
        let start_span = self.advance().span;
        let ghost s1 = *self;
        if self.peek().kind != TokenKind::OpenParen {
            let sp = self.peek().span;
            let st = self.error_stmt("expected '('", sp);
            proof {
                Self::lemma_failed(*old(self), s1, *self, st);
                assert forall|ts: Seq<Token>| continues(ts, self.tokens()) implies #[trigger] condition_at(ts, self.src(), old(self).pos(), old(self).next_id(), reports_of(old(self).diags()))
                    == Err::<(ExprView, int, nat, Seq<Report>), (StmtView, int, nat, Seq<Report>)>((stmt_view(st), self.pos(), self.next_id(), reports_of(self.diags()))) by {
                    Self::lemma_cursor(*old(self), *self, ts);
                    Self::lemma_cursor(s1, *self, ts);
                }
            }
            return Err(st);
        }
        self.advance();
        let ghost s2 = *self;
        proof { Self::lemma_step_trans(*old(self), s1, s2); }
        let cond = self.parse_expression();
        let ghost s3 = *self;
        proof { Self::lemma_expr_prefix(*old(self), s2, s3, cond); }
        if self.peek().kind != TokenKind::CloseParen {
            let sp = self.peek().span;
            let st = self.error_stmt("expected ')'", sp);
            proof {
                Self::lemma_failed(*old(self), s3, *self, st);
                assert forall|ts: Seq<Token>| continues(ts, self.tokens()) implies #[trigger] condition_at(ts, self.src(), old(self).pos(), old(self).next_id(), reports_of(old(self).diags()))
                    == Err::<(ExprView, int, nat, Seq<Report>), (StmtView, int, nat, Seq<Report>)>((stmt_view(st), self.pos(), self.next_id(), reports_of(self.diags()))) by {
                    lemma_continues_trans(self.tokens(), s2.tokens(), s3.tokens());
                    lemma_continues_trans(self.tokens(), s1.tokens(), s2.tokens());
                    Self::lemma_cursor(*old(self), *self, ts);
                    Self::lemma_cursor(s1, *self, ts);
                    Self::lemma_cursor(s3, *self, ts);
                    assert(s2.pos() == s1.pos() + 1);
                    assert(expression_at(ts, self.src(), s2.pos(), s2.next_id(), reports_of(s2.diags())) == (expr_view(cond), s3.pos(), s3.next_id(), reports_of(s3.diags())));
                }
            }
            return Err(st);
        }
        self.advance();
        proof {
            Self::lemma_expr_suffix(*old(self), s3, *self, cond);
            assert forall|ts: Seq<Token>| continues(ts, self.tokens()) implies #[trigger] condition_at(ts, self.src(), old(self).pos(), old(self).next_id(), reports_of(old(self).diags()))
                == Ok::<(ExprView, int, nat, Seq<Report>), (StmtView, int, nat, Seq<Report>)>((expr_view(cond), self.pos(), self.next_id(), reports_of(self.diags()))) by {
                lemma_continues_trans(self.tokens(), s2.tokens(), s3.tokens());
                lemma_continues_trans(self.tokens(), s1.tokens(), s2.tokens());
                Self::lemma_cursor(*old(self), *self, ts);
                Self::lemma_cursor(s1, *self, ts);
                Self::lemma_cursor(s3, *self, ts);
                assert(s2.pos() == s1.pos() + 1);
                assert(expression_at(ts, self.src(), s2.pos(), s2.next_id(), reports_of(s2.diags())) == (expr_view(cond), s3.pos(), s3.next_id(), reports_of(s3.diags())));
            }
        }
        Ok((start_span, cond))
    }

    fn parse_while(&mut self) -> (st: Stmt)
        requires
            old(self).ready(),
            old(self).peek_token().kind is While,
        ensures
            final(self).stmt_parsed(*old(self), st),
            final(self).measure() < old(self).measure(),
            final(self).pos() > old(self).pos(),
            forall|ts: Seq<Token>| continues(ts, final(self).tokens()) ==> #[trigger] while_at(ts, final(self).src(), old(self).pos(), old(self).next_id(), reports_of(old(self).diags())) == (stmt_view(st), final(self).pos(), final(self).next_id(), reports_of(final(self).diags())),
        decreases old(self).measure(), 19nat,
    {
        let (start_span, cond) = match self.parse_condition() {
            Ok(x) => x,
            Err(st) => {
                proof {
                    assert forall|ts: Seq<Token>| continues(ts, self.tokens()) implies #[trigger] while_at(ts, self.src(), old(self).pos(), old(self).next_id(), reports_of(old(self).diags()))
                        == (stmt_view(st), self.pos(), self.next_id(), reports_of(self.diags())) by {
                        assert(condition_at(ts, self.src(), old(self).pos(), old(self).next_id(), reports_of(old(self).diags())) == Err::<(ExprView, int, nat, Seq<Report>), (StmtView, int, nat, Seq<Report>)>((stmt_view(st), self.pos(), self.next_id(), reports_of(self.diags()))));
                    }
                }
                return st;
            },
        };
        let ghost s4 = *self;
        let body = self.parse_statement();
        let ghost s5 = *self;
        let end_span = body.span;
        let ghost c = cond;
        let ghost b = body;
        proof {
            Self::lemma_step_trans(*old(self), s4, s5);
            Self::lemma_ids_chain(*old(self), s4, s5, expr_ids(c), stmt_ids(b));
        }
        let id = self.next_node_id();
        let st = Stmt::new(id, StmtKind::While(Box::new(cond), Box::new(body)), start_span.join(end_span));
        proof {
            assert(stmt_ids(st) == expr_ids(c) + stmt_ids(b) + seq![id.0]);
            Self::lemma_stmt_node(*old(self), s5, *self, st, expr_ids(c) + stmt_ids(b), expr_has_error(c) || stmt_has_error(b));
            assert forall|ts: Seq<Token>| continues(ts, self.tokens()) implies #[trigger] while_at(ts, self.src(), old(self).pos(), old(self).next_id(), reports_of(old(self).diags()))
                == (stmt_view(st), self.pos(), self.next_id(), reports_of(self.diags())) by {
                lemma_continues_trans(self.tokens(), s4.tokens(), s5.tokens());
                Self::lemma_cursor(*old(self), *self, ts);
                Self::lemma_cursor(s4, *self, ts);
                assert(condition_at(ts, self.src(), old(self).pos(), old(self).next_id(), reports_of(old(self).diags())) == Ok::<(ExprView, int, nat, Seq<Report>), (StmtView, int, nat, Seq<Report>)>((expr_view(c), s4.pos(), s4.next_id(), reports_of(s4.diags()))));
                assert(statement_at(ts, self.src(), s4.pos(), s4.next_id(), reports_of(s4.diags())) == (stmt_view(b), s5.pos(), s5.next_id(), reports_of(s5.diags())));
            }
        }
        st
    }

    #[verifier::rlimit(50)]
    #[verifier::spinoff_prover]
    fn parse_if(&mut self) -> (st: Stmt)
        requires
            old(self).ready(),
            old(self).peek_token().kind is If,
        ensures
            final(self).stmt_parsed(*old(self), st),
            final(self).measure() < old(self).measure(),
            final(self).pos() > old(self).pos(),
            forall|ts: Seq<Token>| continues(ts, final(self).tokens()) ==> #[trigger] if_at(ts, final(self).src(), old(self).pos(), old(self).next_id(), reports_of(old(self).diags())) == (stmt_view(st), final(self).pos(), final(self).next_id(), reports_of(final(self).diags())),
        decreases old(self).measure(), 19nat,
    {
        let (start_span, cond) = match self.parse_condition() {
            Ok(x) => x,
            Err(st) => {
                proof {
                    assert forall|ts: Seq<Token>| continues(ts, self.tokens()) implies #[trigger] if_at(ts, self.src(), old(self).pos(), old(self).next_id(), reports_of(old(self).diags()))
                        == (stmt_view(st), self.pos(), self.next_id(), reports_of(self.diags())) by {
                        assert(condition_at(ts, self.src(), old(self).pos(), old(self).next_id(), reports_of(old(self).diags())) == Err::<(ExprView, int, nat, Seq<Report>), (StmtView, int, nat, Seq<Report>)>((stmt_view(st), self.pos(), self.next_id(), reports_of(self.diags()))));
                    }
                }
                return st;
            },
        };
        let ghost s4 = *self;
        let body = self.parse_statement();
        let ghost s5 = *self;
        let ghost c = cond;
        let ghost b = body;
        proof {
            Self::lemma_step_trans(*old(self), s4, s5);
            Self::lemma_ids_chain(*old(self), s4, s5, expr_ids(c), stmt_ids(b));
        }
        if self.peek().kind == TokenKind::Else {
            self.advance();
            let ghost s6 = *self;
            proof {
                Self::lemma_step_trans(*old(self), s5, s6);
                Self::lemma_ids_stay(*old(self), s5, s6, expr_ids(c) + stmt_ids(b));
            }
            let else_body = if self.peek().kind == TokenKind::If { self.parse_if() } else { self.parse_statement() };
            let ghost s7 = *self;
            let ghost eb = else_body;
            proof {
                Self::lemma_step_trans(*old(self), s6, s7);
                Self::lemma_ids_chain(*old(self), s6, s7, expr_ids(c) + stmt_ids(b), stmt_ids(eb));
            }
            let end_span = else_body.span;
            let id = self.next_node_id();
            let st = Stmt::new(id, StmtKind::If(Box::new(cond), Box::new(body), Some(Box::new(else_body))), start_span.join(end_span));
            proof {
                assert(stmt_ids(st) == expr_ids(c) + stmt_ids(b) + stmt_ids(eb) + seq![id.0]);
                Self::lemma_stmt_node(*old(self), s7, *self, st, expr_ids(c) + stmt_ids(b) + stmt_ids(eb),
                    expr_has_error(c) || stmt_has_error(b) || stmt_has_error(eb));
                assert forall|ts: Seq<Token>| continues(ts, self.tokens()) implies #[trigger] if_at(ts, self.src(), old(self).pos(), old(self).next_id(), reports_of(old(self).diags()))
                    == (stmt_view(st), self.pos(), self.next_id(), reports_of(self.diags())) by {
                    lemma_continues_trans(self.tokens(), s6.tokens(), s7.tokens());
                    lemma_continues_trans(self.tokens(), s5.tokens(), s6.tokens());
                    lemma_continues_trans(self.tokens(), s4.tokens(), s5.tokens());
                    Self::lemma_cursor(*old(self), *self, ts);
                    Self::lemma_cursor(s4, *self, ts);
                    Self::lemma_cursor(s5, *self, ts);
                    Self::lemma_cursor(s6, *self, ts);
                    assert(condition_at(ts, self.src(), old(self).pos(), old(self).next_id(), reports_of(old(self).diags())) == Ok::<(ExprView, int, nat, Seq<Report>), (StmtView, int, nat, Seq<Report>)>((expr_view(c), s4.pos(), s4.next_id(), reports_of(s4.diags()))));
                    assert(statement_at(ts, self.src(), s4.pos(), s4.next_id(), reports_of(s4.diags())) == (stmt_view(b), s5.pos(), s5.next_id(), reports_of(s5.diags())));
                    if s6.peek_token().kind is If {
                        assert(if_at(ts, self.src(), s6.pos(), s6.next_id(), reports_of(s6.diags())) == (stmt_view(eb), s7.pos(), s7.next_id(), reports_of(s7.diags())));
                    } else {
                        assert(statement_at(ts, self.src(), s6.pos(), s6.next_id(), reports_of(s6.diags())) == (stmt_view(eb), s7.pos(), s7.next_id(), reports_of(s7.diags())));
                    }
                }
            }
            return st;
        }
        let end_span = body.span;
        let id = self.next_node_id();
        let st = Stmt::new(id, StmtKind::If(Box::new(cond), Box::new(body), None), start_span.join(end_span));
        proof {
            assert(stmt_ids(st) == expr_ids(c) + stmt_ids(b) + Seq::<usize>::empty() + seq![id.0]);
            assert(expr_ids(c) + stmt_ids(b) + Seq::<usize>::empty() =~= expr_ids(c) + stmt_ids(b));
            Self::lemma_stmt_node(*old(self), s5, *self, st, expr_ids(c) + stmt_ids(b), expr_has_error(c) || stmt_has_error(b));
            assert forall|ts: Seq<Token>| continues(ts, self.tokens()) implies #[trigger] if_at(ts, self.src(), old(self).pos(), old(self).next_id(), reports_of(old(self).diags()))
                == (stmt_view(st), self.pos(), self.next_id(), reports_of(self.diags())) by {
                lemma_continues_trans(self.tokens(), s4.tokens(), s5.tokens());
                Self::lemma_cursor(*old(self), *self, ts);
                Self::lemma_cursor(s4, *self, ts);
                Self::lemma_cursor(s5, *self, ts);
                assert(condition_at(ts, self.src(), old(self).pos(), old(self).next_id(), reports_of(old(self).diags())) == Ok::<(ExprView, int, nat, Seq<Report>), (StmtView, int, nat, Seq<Report>)>((expr_view(c), s4.pos(), s4.next_id(), reports_of(s4.diags()))));
                assert(statement_at(ts, self.src(), s4.pos(), s4.next_id(), reports_of(s4.diags())) == (stmt_view(b), s5.pos(), s5.next_id(), reports_of(s5.diags())));
            }
        }
        st
    }
}

impl<'src, 'diag, T: TokenStream> Parser<'src, 'diag, T> {
    /// A declaration node with an optional initializer parsed from `a` to `b`.
    proof fn lemma_decl_node(a: Self, b: Self, c: Self, st: Stmt, init: Option<Expr>)
        requires
            b.step_from(a),
            c.step_from(b),
            c.diags() == b.diags(),
            b.ids_ok(a, opt_expr_ids(init)),
            st.id.0 == b.next_id(),
            c.next_id() == if b.next_id() < usize::MAX { (b.next_id() + 1) as int } else { b.next_id() as int },
            st.kind matches StmtKind::VarDecl(_, _, i) && i == init,
            (b.diags().len() == a.diags().len()) == !opt_expr_has_error(init),
            span_within(st.span, c.src().len() as int),
            opt_expr_within(init, c.src().len() as int),
        ensures
            c.stmt_parsed(a, st),
    {
        Self::lemma_stmt_node(a, b, c, st, opt_expr_ids(init), opt_expr_has_error(init));
    }

    /// An `Error` statement parsed after other parsing stands for all of it.
    proof fn lemma_error_after(a: Self, b: Self, c: Self, st: Stmt)
        requires
            b.step_from(a),
            c.stmt_parsed(b, st),
            st.kind == StmtKind::Error,
        ensures
            c.stmt_parsed(a, st),
    {
        Self::lemma_step_trans(a, b, c);
        assert(stmt_ids(st) == seq![st.id.0]);
        if c.next_id() < usize::MAX {
            Self::lemma_ids_widen(a, b, c, stmt_ids(st));
        }
    }

    /// Moving the cursor before parsing a statement does not change what
    /// was parsed.
    proof fn lemma_stmt_prefix(a: Self, b: Self, c: Self, st: Stmt)
        requires
            b.step_from(a),
            b.diags() == a.diags(),
            b.next_id() == a.next_id(),
            c.stmt_parsed(b, st),
        ensures
            c.stmt_parsed(a, st),
    {
        Self::lemma_step_trans(a, b, c);
    }

    fn parse_var_decl(&mut self) -> (st: Stmt)
        requires
            old(self).ready(),
            old(self).peek_token().kind is Let,
        ensures
            final(self).stmt_parsed(*old(self), st),
            final(self).measure() < old(self).measure(),
            final(self).pos() > old(self).pos(),
            forall|ts: Seq<Token>| continues(ts, final(self).tokens()) ==> #[trigger] var_decl_at(ts, final(self).src(), old(self).pos(), old(self).next_id(), reports_of(old(self).diags())) == (stmt_view(st), final(self).pos(), final(self).next_id(), reports_of(final(self).diags())),
        decreases old(self).measure(), 19nat,
    {
        let start_span = self.advance().span;
        let ghost s1 = *self;
        if self.peek().kind != TokenKind::Identifier {
            let st = self.error_stmt("expected identifer", start_span);
            proof {
                Self::lemma_failed(*old(self), s1, *self, st);
                assert forall|ts: Seq<Token>| continues(ts, self.tokens()) implies #[trigger] var_decl_at(ts, self.src(), old(self).pos(), old(self).next_id(), reports_of(old(self).diags()))
                    == (stmt_view(st), self.pos(), self.next_id(), reports_of(self.diags())) by {
                    Self::lemma_cursor(*old(self), *self, ts);
                    Self::lemma_cursor(s1, *self, ts);
                }
            }
            return st;
        }
        let sp = self.peek().span;
        let identifier = vstd::slice::slice_to_vec(Span::retrieve_slice(self.source, &sp));
        self.advance();
        let ghost s2 = *self;
        proof { Self::lemma_step_trans(*old(self), s1, s2); }
        if self.peek().kind == TokenKind::Colon || self.peek().kind == TokenKind::Equal {
            let typed = self.peek().kind == TokenKind::Colon;
            self.advance();
            let ghost s3 = *self;
            proof { Self::lemma_step_trans(*old(self), s2, s3); }
            let ghost name = identifier@;
            let st = if typed {
                self.parse_typed_decl(start_span, identifier)
            } else {
                self.parse_decl_init(start_span, identifier, None)
            };
            proof {
                Self::lemma_stmt_prefix(*old(self), s3, *self, st);
                assert forall|ts: Seq<Token>| continues(ts, self.tokens()) implies #[trigger] var_decl_at(ts, self.src(), old(self).pos(), old(self).next_id(), reports_of(old(self).diags()))
                    == (stmt_view(st), self.pos(), self.next_id(), reports_of(self.diags())) by {
                    lemma_continues_trans(self.tokens(), s2.tokens(), s3.tokens());
                    lemma_continues_trans(self.tokens(), s1.tokens(), s2.tokens());
                    Self::lemma_cursor(*old(self), *self, ts);
                    Self::lemma_cursor(s1, *self, ts);
                    Self::lemma_cursor(s2, *self, ts);
                    assert(name == token_text(self.src(), ts[s1.pos()]));
                    if typed {
                        assert(typed_decl_at(ts, self.src(), s3.pos(), s3.next_id(), reports_of(s3.diags()), start_span, name) == (stmt_view(st), self.pos(), self.next_id(), reports_of(self.diags())));
                    } else {
                        assert(decl_init_at(ts, self.src(), s3.pos(), s3.next_id(), reports_of(s3.diags()), start_span, name, None) == (stmt_view(st), self.pos(), self.next_id(), reports_of(self.diags())));
                    }
                }
            }
            return st;
        }
        let sp = self.peek().span;
        let st = self.error_stmt("expected '=' or ';'", start_span.join(sp));
        proof {
            Self::lemma_failed(*old(self), s2, *self, st);
            assert forall|ts: Seq<Token>| continues(ts, self.tokens()) implies #[trigger] var_decl_at(ts, self.src(), old(self).pos(), old(self).next_id(), reports_of(old(self).diags()))
                == (stmt_view(st), self.pos(), self.next_id(), reports_of(self.diags())) by {
                lemma_continues_trans(self.tokens(), s1.tokens(), s2.tokens());
                Self::lemma_cursor(*old(self), *self, ts);
                Self::lemma_cursor(s1, *self, ts);
                Self::lemma_cursor(s2, *self, ts);
            }
        }
        st
    }

    /// The rest of a declaration of `identifier` from its type on; the
    /// declaration starts at `start_span`.
    fn parse_typed_decl(&mut self, start_span: Span, identifier: Vec<u8>) -> (st: Stmt)
        requires
            old(self).ready(),
            span_within(start_span, old(self).src().len() as int),
        ensures
            final(self).stmt_parsed(*old(self), st),
            final(self).pos() > old(self).pos(),
            forall|ts: Seq<Token>| continues(ts, final(self).tokens()) ==> #[trigger] typed_decl_at(ts, final(self).src(), old(self).pos(), old(self).next_id(), reports_of(old(self).diags()), start_span, identifier@)
                == (stmt_view(st), final(self).pos(), final(self).next_id(), reports_of(final(self).diags())),
    {
        let ghost name = identifier@;
        let var_type = if self.peek().kind == TokenKind::Int {
            self.advance();
            Type::Int
        } else if self.peek().kind == TokenKind::Bool {
            self.advance();
            Type::Bool
        } else {
            let end_span = self.advance().span;
            let ghost s1 = *self;
            let st = self.error_stmt("expected a type annotation", end_span);
            proof {
                Self::lemma_failed(*old(self), s1, *self, st);
                assert forall|ts: Seq<Token>| continues(ts, self.tokens()) implies #[trigger] typed_decl_at(ts, self.src(), old(self).pos(), old(self).next_id(), reports_of(old(self).diags()), start_span, name)
                    == (stmt_view(st), self.pos(), self.next_id(), reports_of(self.diags())) by {
                    Self::lemma_cursor(*old(self), *self, ts);
                }
            }
            return st;
        };
        let ghost s1 = *self;
        if self.peek().kind == TokenKind::Equal {
            self.advance();
            let ghost s2 = *self;
            proof { Self::lemma_step_trans(*old(self), s1, s2); }
            let st = self.parse_decl_init(start_span, identifier, Some(var_type));
            proof {
                Self::lemma_stmt_prefix(*old(self), s2, *self, st);
                assert forall|ts: Seq<Token>| continues(ts, self.tokens()) implies #[trigger] typed_decl_at(ts, self.src(), old(self).pos(), old(self).next_id(), reports_of(old(self).diags()), start_span, name)
                    == (stmt_view(st), self.pos(), self.next_id(), reports_of(self.diags())) by {
                    lemma_continues_trans(self.tokens(), s1.tokens(), s2.tokens());
                    Self::lemma_cursor(*old(self), *self, ts);
                    Self::lemma_cursor(s1, *self, ts);
                    assert(decl_init_at(ts, self.src(), s2.pos(), s2.next_id(), reports_of(s2.diags()), start_span, name, Some(var_type)) == (stmt_view(st), self.pos(), self.next_id(), reports_of(self.diags())));
                }
            }
            return st;
        } else if self.peek().kind == TokenKind::Semicolon {
            let end_span = self.advance().span;
            let ghost s2 = *self;
            proof {
                Self::lemma_step_trans(*old(self), s1, s2);
                Self::lemma_ids_empty(*old(self), s2);
                assert(opt_expr_ids(None) =~= Seq::<usize>::empty());
            }
            let id = self.next_node_id();
            let st = Stmt::new(id, StmtKind::VarDecl(identifier, Some(var_type), None), start_span.join(end_span));
            proof {
                Self::lemma_decl_node(*old(self), s2, *self, st, None);
                assert forall|ts: Seq<Token>| continues(ts, self.tokens()) implies #[trigger] typed_decl_at(ts, self.src(), old(self).pos(), old(self).next_id(), reports_of(old(self).diags()), start_span, name)
                    == (stmt_view(st), self.pos(), self.next_id(), reports_of(self.diags())) by {
                    lemma_continues_trans(self.tokens(), s1.tokens(), s2.tokens());
                    Self::lemma_cursor(*old(self), *self, ts);
                    Self::lemma_cursor(s1, *self, ts);
                }
            }
            return st;
        }
        let end_span = self.peek().span;
        let st = self.error_stmt("expected '=' or ';'", start_span.join(end_span));
        proof {
            Self::lemma_failed(*old(self), s1, *self, st);
            assert forall|ts: Seq<Token>| continues(ts, self.tokens()) implies #[trigger] typed_decl_at(ts, self.src(), old(self).pos(), old(self).next_id(), reports_of(old(self).diags()), start_span, name)
                == (stmt_view(st), self.pos(), self.next_id(), reports_of(self.diags())) by {
                Self::lemma_cursor(*old(self), *self, ts);
                Self::lemma_cursor(s1, *self, ts);
            }
        }
        st
    }

    /// The initializer of a declaration of `identifier` with type
    /// `var_type`, and the `;` after it; the declaration starts at
    /// `start_span`.
    fn parse_decl_init(&mut self, start_span: Span, identifier: Vec<u8>, var_type: Option<Type>) -> (st: Stmt)
        requires
            old(self).ready(),
            span_within(start_span, old(self).src().len() as int),
        ensures
            final(self).stmt_parsed(*old(self), st),
            final(self).pos() > old(self).pos(),
            forall|ts: Seq<Token>| continues(ts, final(self).tokens()) ==> #[trigger] decl_init_at(ts, final(self).src(), old(self).pos(), old(self).next_id(), reports_of(old(self).diags()), start_span, identifier@, var_type)
                == (stmt_view(st), final(self).pos(), final(self).next_id(), reports_of(final(self).diags())),
    {
        let ghost name = identifier@;
        let init = self.parse_expression();
        let ghost s1 = *self;
        if self.peek().kind != TokenKind::Semicolon {
            let end_span = self.advance().span;
            let ghost s2 = *self;
            proof { Self::lemma_step_trans(*old(self), s1, s2); }
            let st = match var_type {
                Some(_) => self.error_stmt("expected ';' after variable declaration", end_span),
                None => self.error_stmt("expected ';' after expression", start_span.join(end_span)),
            };
            proof {
                Self::lemma_failed(*old(self), s2, *self, st);
                assert forall|ts: Seq<Token>| continues(ts, self.tokens()) implies #[trigger] decl_init_at(ts, self.src(), old(self).pos(), old(self).next_id(), reports_of(old(self).diags()), start_span, name, var_type)
                    == (stmt_view(st), self.pos(), self.next_id(), reports_of(self.diags())) by {
                    lemma_continues_trans(self.tokens(), s1.tokens(), s2.tokens());
                    Self::lemma_cursor(*old(self), *self, ts);
                    Self::lemma_cursor(s1, *self, ts);
                    assert(expression_at(ts, self.src(), old(self).pos(), old(self).next_id(), reports_of(old(self).diags())) == (expr_view(init), s1.pos(), s1.next_id(), reports_of(s1.diags())));
                }
            }
            return st;
        }
        let end_span = self.advance().span;
        let ghost s2 = *self;
        proof { Self::lemma_expr_suffix(*old(self), s1, s2, init); }
        let id = self.next_node_id();
        let ghost i = Some(init);
        let st = Stmt::new(id, StmtKind::VarDecl(identifier, var_type, Some(init)), start_span.join(end_span));
        proof {
            Self::lemma_decl_node(*old(self), s2, *self, st, i);
            assert forall|ts: Seq<Token>| continues(ts, self.tokens()) implies #[trigger] decl_init_at(ts, self.src(), old(self).pos(), old(self).next_id(), reports_of(old(self).diags()), start_span, name, var_type)
                == (stmt_view(st), self.pos(), self.next_id(), reports_of(self.diags())) by {
                lemma_continues_trans(self.tokens(), s1.tokens(), s2.tokens());
                Self::lemma_cursor(*old(self), *self, ts);
                Self::lemma_cursor(s1, *self, ts);
                assert(expression_at(ts, self.src(), old(self).pos(), old(self).next_id(), reports_of(old(self).diags())) == (expr_view(init), s1.pos(), s1.next_id(), reports_of(s1.diags())));
            }
        }
        st
    }

    /// The initializer of a `for` loop: a declaration, nothing before `;`,
    /// or an expression and `;`; or the `Error` statement where an
    /// expression is not followed by `;`.
    fn parse_for_init(&mut self) -> (r: Result<Option<Box<ForInit>>, Stmt>)
        requires
            old(self).ready(),
        ensures
            final(self).measure() < old(self).measure() || old(self).peek_token().kind is Eof || r is Err,
            final(self).pos() >= old(self).pos(),
            match r {
                Ok(init) => {
                    &&& final(self).step_from(*old(self))
                    &&& opt_init_within(init, final(self).src().len() as int)
                    &&& (final(self).diags().len() == old(self).diags().len()) == !opt_init_has_error(init)
                    &&& final(self).ids_ok(*old(self), opt_init_ids(init))
                },
                Err(st) => final(self).stmt_parsed(*old(self), st),
            },
            match r {
                Err(st) => {
                    &&& st.kind == StmtKind::Error
                    &&& st.span == final(self).peek_token().span
                    &&& final(self).next_id() == id_after(st.id.0 as nat)
                },
                Ok(_) => true,
            },
            forall|ts: Seq<Token>| continues(ts, final(self).tokens()) ==> #[trigger] for_init_at(ts, final(self).src(), old(self).pos(), old(self).next_id(), reports_of(old(self).diags()))
                == match r {
                    Ok(i) => Ok((opt_init_view(i), final(self).pos(), final(self).next_id(), reports_of(final(self).diags()))),
                    Err(st) => Err((final(self).pos(), st.id.0 as nat, reports_of(final(self).diags()))),
                },
        decreases old(self).measure(), 21nat,
    {
        if self.peek().kind == TokenKind::Let {
            let d = self.parse_statement();
            let ghost dd = d;
            let init = Some(Box::new(ForInit::Statement(d)));
            proof {
                assert(opt_init_ids(init) == stmt_ids(dd));
                assert forall|ts: Seq<Token>| continues(ts, self.tokens()) implies #[trigger] for_init_at(ts, self.src(), old(self).pos(), old(self).next_id(), reports_of(old(self).diags()))
                    == Ok::<(Option<Box<InitView>>, int, nat, Seq<Report>), (int, nat, Seq<Report>)>((opt_init_view(init), self.pos(), self.next_id(), reports_of(self.diags()))) by {
                    Self::lemma_cursor(*old(self), *self, ts);
                    assert(statement_at(ts, self.src(), old(self).pos(), old(self).next_id(), reports_of(old(self).diags())) == (stmt_view(dd), self.pos(), self.next_id(), reports_of(self.diags())));
                }
            }
            Ok(init)
        } else if self.peek().kind == TokenKind::Semicolon {
            self.advance();
            proof {
                Self::lemma_ids_empty(*old(self), *self);
                assert(opt_init_ids(None) =~= Seq::<usize>::empty());
                assert forall|ts: Seq<Token>| continues(ts, self.tokens()) implies #[trigger] for_init_at(ts, self.src(), old(self).pos(), old(self).next_id(), reports_of(old(self).diags()))
                    == Ok::<(Option<Box<InitView>>, int, nat, Seq<Report>), (int, nat, Seq<Report>)>((opt_init_view(None), self.pos(), self.next_id(), reports_of(self.diags()))) by {
                    Self::lemma_cursor(*old(self), *self, ts);
                }
            }
            Ok(None)
        } else {
            let x = self.parse_expression();
            let ghost s1 = *self;
            if self.peek().kind != TokenKind::Semicolon {
                let sp = self.peek().span;
                let st = self.error_stmt("expected ';' after loop initializer", sp);
                proof {
                    Self::lemma_failed(*old(self), s1, *self, st);
                    assert forall|ts: Seq<Token>| continues(ts, self.tokens()) implies #[trigger] for_init_at(ts, self.src(), old(self).pos(), old(self).next_id(), reports_of(old(self).diags()))
                        == Err::<(Option<Box<InitView>>, int, nat, Seq<Report>), (int, nat, Seq<Report>)>((self.pos(), st.id.0 as nat, reports_of(self.diags()))) by {
                        Self::lemma_cursor(*old(self), *self, ts);
                        Self::lemma_cursor(s1, *self, ts);
                        assert(expression_at(ts, self.src(), old(self).pos(), old(self).next_id(), reports_of(old(self).diags())) == (expr_view(x), s1.pos(), s1.next_id(), reports_of(s1.diags())));
                    }
                }
                return Err(st);
            }
            self.advance();
            let ghost xx = x;
            let init = Some(Box::new(ForInit::Expr(x)));
            proof {
                Self::lemma_expr_suffix(*old(self), s1, *self, xx);
                assert(opt_init_ids(init) == expr_ids(xx));
                assert forall|ts: Seq<Token>| continues(ts, self.tokens()) implies #[trigger] for_init_at(ts, self.src(), old(self).pos(), old(self).next_id(), reports_of(old(self).diags()))
                    == Ok::<(Option<Box<InitView>>, int, nat, Seq<Report>), (int, nat, Seq<Report>)>((opt_init_view(init), self.pos(), self.next_id(), reports_of(self.diags()))) by {
                    Self::lemma_cursor(*old(self), *self, ts);
                    Self::lemma_cursor(s1, *self, ts);
                    assert(expression_at(ts, self.src(), old(self).pos(), old(self).next_id(), reports_of(old(self).diags())) == (expr_view(xx), s1.pos(), s1.next_id(), reports_of(s1.diags())));
                }
            }
            Ok(init)
        }
    }

    /// An expression, unless the token under the cursor is `stop`.
    fn parse_opt_expression(&mut self, stop: TokenKind) -> (r: Option<Expr>)
        requires
            old(self).ready(),
        ensures
            match r {
                Some(x) => final(self).expr_parsed(*old(self), x),
                None => *final(self) == *old(self),
            },
            final(self).step_from(*old(self)),
            forall|ts: Seq<Token>| continues(ts, final(self).tokens()) ==> #[trigger] opt_expression_at(ts, final(self).src(), old(self).pos(), old(self).next_id(), reports_of(old(self).diags()), stop)
                == (opt_expr_view(r), final(self).pos(), final(self).next_id(), reports_of(final(self).diags())),
    {
        if self.peek().kind == stop {
            proof {
                Self::lemma_step_refl(*self);
                assert forall|ts: Seq<Token>| continues(ts, self.tokens()) implies #[trigger] opt_expression_at(ts, self.src(), old(self).pos(), old(self).next_id(), reports_of(old(self).diags()), stop)
                    == (opt_expr_view(None), self.pos(), self.next_id(), reports_of(self.diags())) by {
                    Self::lemma_cursor(*old(self), *self, ts);
                }
            }
            None
        } else {
            let x = self.parse_expression();
            proof {
                assert forall|ts: Seq<Token>| continues(ts, self.tokens()) implies #[trigger] opt_expression_at(ts, self.src(), old(self).pos(), old(self).next_id(), reports_of(old(self).diags()), stop)
                    == (opt_expr_view(Some(x)), self.pos(), self.next_id(), reports_of(self.diags())) by {
                    Self::lemma_cursor(*old(self), *self, ts);
                    assert(expression_at(ts, self.src(), old(self).pos(), old(self).next_id(), reports_of(old(self).diags())) == (expr_view(x), self.pos(), self.next_id(), reports_of(self.diags())));
                }
            }
            Some(x)
        }
    }

    /// The condition, `;`, the increment and `)` of a `for` loop, either
    /// expression possibly left out; or the `Error` statement in their
    /// place.
    #[verifier::rlimit(60)]
    #[verifier::spinoff_prover]
    fn parse_for_clauses(&mut self) -> (r: Result<(Option<Expr>, Option<Expr>), Stmt>)
        requires
            old(self).ready(),
        ensures
            match r {
                Ok((c, inc)) => {
                    &&& final(self).step_from(*old(self))
                    &&& final(self).pos() > old(self).pos()
                    &&& opt_expr_within(c, final(self).src().len() as int)
                    &&& opt_expr_within(inc, final(self).src().len() as int)
                    &&& (final(self).diags().len() == old(self).diags().len()) == !(opt_expr_has_error(c) || opt_expr_has_error(inc))
                    &&& final(self).ids_ok(*old(self), opt_expr_ids(c) + opt_expr_ids(inc))
                },
                Err(st) => final(self).stmt_parsed(*old(self), st) && st.kind == StmtKind::Error,
            },
            forall|ts: Seq<Token>| continues(ts, final(self).tokens()) ==> #[trigger] for_clauses_at(ts, final(self).src(), old(self).pos(), old(self).next_id(), reports_of(old(self).diags()))
                == match r {
                    Ok((c, inc)) => Ok((opt_expr_view(c), opt_expr_view(inc), final(self).pos(), final(self).next_id(), reports_of(final(self).diags()))),
                    Err(st) => Err((stmt_view(st), final(self).pos(), final(self).next_id(), reports_of(final(self).diags()))),
                },
    {
        let cond = self.parse_opt_expression(TokenKind::Semicolon);
        let ghost s1 = *self;
        proof {
            Self::lemma_ids_empty(*old(self), *old(self));
            Self::lemma_ids_chain(*old(self), *old(self), s1, seq![], opt_expr_ids(cond));
            assert(Seq::<usize>::empty() + opt_expr_ids(cond) =~= opt_expr_ids(cond));
        }
        if self.peek().kind != TokenKind::Semicolon {
            let sp = self.peek().span;
            let st = self.error_stmt("expected ';' after for loop condition", sp);
            proof {
                Self::lemma_failed(*old(self), s1, *self, st);
                assert forall|ts: Seq<Token>| continues(ts, self.tokens()) implies #[trigger] for_clauses_at(ts, self.src(), old(self).pos(), old(self).next_id(), reports_of(old(self).diags()))
                    == Err::<(Option<ExprView>, Option<ExprView>, int, nat, Seq<Report>), (StmtView, int, nat, Seq<Report>)>((stmt_view(st), self.pos(), self.next_id(), reports_of(self.diags()))) by {
                    Self::lemma_cursor(*old(self), *self, ts);
                    Self::lemma_cursor(s1, *self, ts);
                    assert(opt_expression_at(ts, self.src(), old(self).pos(), old(self).next_id(), reports_of(old(self).diags()), TokenKind::Semicolon) == (opt_expr_view(cond), s1.pos(), s1.next_id(), reports_of(s1.diags())));
                }
            }
            return Err(st);
        }
        self.advance();
        let ghost s2 = *self;
        proof {
            Self::lemma_step_trans(*old(self), s1, s2);
            Self::lemma_ids_stay(*old(self), s1, s2, opt_expr_ids(cond));
        }
        let incre = self.parse_opt_expression(TokenKind::CloseParen);
        let ghost s3 = *self;
        proof {
            Self::lemma_step_trans(*old(self), s2, s3);
            Self::lemma_ids_chain(*old(self), s2, s3, opt_expr_ids(cond), opt_expr_ids(incre));
        }
        if self.peek().kind != TokenKind::CloseParen {
            let sp = self.peek().span;
            let st = self.error_stmt("expected ')'", sp);
            proof {
                Self::lemma_failed(*old(self), s3, *self, st);
                assert forall|ts: Seq<Token>| continues(ts, self.tokens()) implies #[trigger] for_clauses_at(ts, self.src(), old(self).pos(), old(self).next_id(), reports_of(old(self).diags()))
                    == Err::<(Option<ExprView>, Option<ExprView>, int, nat, Seq<Report>), (StmtView, int, nat, Seq<Report>)>((stmt_view(st), self.pos(), self.next_id(), reports_of(self.diags()))) by {
                    lemma_continues_trans(self.tokens(), s2.tokens(), s3.tokens());
                    lemma_continues_trans(self.tokens(), s1.tokens(), s2.tokens());
                    Self::lemma_cursor(*old(self), *self, ts);
                    Self::lemma_cursor(s1, *self, ts);
                    Self::lemma_cursor(s3, *self, ts);
                    assert(opt_expression_at(ts, self.src(), old(self).pos(), old(self).next_id(), reports_of(old(self).diags()), TokenKind::Semicolon) == (opt_expr_view(cond), s1.pos(), s1.next_id(), reports_of(s1.diags())));
                    assert(opt_expression_at(ts, self.src(), s2.pos(), s2.next_id(), reports_of(s2.diags()), TokenKind::CloseParen) == (opt_expr_view(incre), s3.pos(), s3.next_id(), reports_of(s3.diags())));
                }
            }
            return Err(st);
        }
        self.advance();
        proof {
            Self::lemma_step_trans(*old(self), s3, *self);
            Self::lemma_ids_stay(*old(self), s3, *self, opt_expr_ids(cond) + opt_expr_ids(incre));
            assert forall|ts: Seq<Token>| continues(ts, self.tokens()) implies #[trigger] for_clauses_at(ts, self.src(), old(self).pos(), old(self).next_id(), reports_of(old(self).diags()))
                == Ok::<(Option<ExprView>, Option<ExprView>, int, nat, Seq<Report>), (StmtView, int, nat, Seq<Report>)>((opt_expr_view(cond), opt_expr_view(incre), self.pos(), self.next_id(), reports_of(self.diags()))) by {
                lemma_continues_trans(self.tokens(), s2.tokens(), s3.tokens());
                lemma_continues_trans(self.tokens(), s1.tokens(), s2.tokens());
                Self::lemma_cursor(*old(self), *self, ts);
                Self::lemma_cursor(s1, *self, ts);
                Self::lemma_cursor(s3, *self, ts);
                assert(opt_expression_at(ts, self.src(), old(self).pos(), old(self).next_id(), reports_of(old(self).diags()), TokenKind::Semicolon) == (opt_expr_view(cond), s1.pos(), s1.next_id(), reports_of(s1.diags())));
                assert(opt_expression_at(ts, self.src(), s2.pos(), s2.next_id(), reports_of(s2.diags()), TokenKind::CloseParen) == (opt_expr_view(incre), s3.pos(), s3.next_id(), reports_of(s3.diags())));
            }
        }
        Ok((cond, incre))
    }

    #[verifier::rlimit(100)]
    #[verifier::spinoff_prover]
    fn parse_for(&mut self) -> (st: Stmt)
        requires
            old(self).ready(),
            old(self).peek_token().kind is For,
        ensures
            final(self).stmt_parsed(*old(self), st),
            final(self).measure() < old(self).measure(),
            final(self).pos() > old(self).pos(),
            forall|ts: Seq<Token>| continues(ts, final(self).tokens()) ==> #[trigger] for_at(ts, final(self).src(), old(self).pos(), old(self).next_id(), reports_of(old(self).diags())) == (stmt_view(st), final(self).pos(), final(self).next_id(), reports_of(final(self).diags())),
        decreases old(self).measure(), 19nat,
    {
        let start_span = self.advance().span;
        let ghost s1 = *self;
        if self.peek().kind != TokenKind::OpenParen {
            let sp = self.peek().span;
            let st = self.error_stmt("expected '('", sp);
            proof {
                Self::lemma_failed(*old(self), s1, *self, st);
                assert forall|ts: Seq<Token>| continues(ts, self.tokens()) implies #[trigger] for_at(ts, self.src(), old(self).pos(), old(self).next_id(), reports_of(old(self).diags()))
                    == (stmt_view(st), self.pos(), self.next_id(), reports_of(self.diags())) by {
                    Self::lemma_cursor(*old(self), *self, ts);
                    Self::lemma_cursor(s1, *self, ts);
                }
            }
            return st;
        }
        self.advance();
        let ghost s2 = *self;
        proof { Self::lemma_step_trans(*old(self), s1, s2); }
        let init = match self.parse_for_init() {
            Ok(i) => i,
            Err(st) => {
                proof {
                    Self::lemma_stmt_prefix(*old(self), s2, *self, st);
                    assert forall|ts: Seq<Token>| continues(ts, self.tokens()) implies #[trigger] for_at(ts, self.src(), old(self).pos(), old(self).next_id(), reports_of(old(self).diags()))
                        == (stmt_view(st), self.pos(), self.next_id(), reports_of(self.diags())) by {
                        lemma_continues_trans(self.tokens(), s1.tokens(), s2.tokens());
                        Self::lemma_cursor(*old(self), *self, ts);
                        Self::lemma_cursor(s1, *self, ts);
                        Self::lemma_cursor(*self, *self, ts);
                        assert(for_init_at(ts, self.src(), s2.pos(), s2.next_id(), reports_of(s2.diags())) == Err::<(Option<Box<InitView>>, int, nat, Seq<Report>), (int, nat, Seq<Report>)>((self.pos(), st.id.0 as nat, reports_of(self.diags()))));
                    }
                }
                return st;
            },
        };
        let ghost s3 = *self;
        let ghost ini = init;
        let ghost init_ids = opt_init_ids(init);
        let ghost init_err = opt_init_has_error(init);
        proof {
            Self::lemma_step_trans(*old(self), s2, s3);
            Self::lemma_ids_widen(*old(self), s2, s3, init_ids);
        }
        let (cond, incre) = match self.parse_for_clauses() {
            Ok(x) => x,
            Err(st) => {
                proof {
                    Self::lemma_error_after(*old(self), s3, *self, st);
                    assert forall|ts: Seq<Token>| continues(ts, self.tokens()) implies #[trigger] for_at(ts, self.src(), old(self).pos(), old(self).next_id(), reports_of(old(self).diags()))
                        == (stmt_view(st), self.pos(), self.next_id(), reports_of(self.diags())) by {
                        lemma_continues_trans(self.tokens(), s2.tokens(), s3.tokens());
                        lemma_continues_trans(self.tokens(), s1.tokens(), s2.tokens());
                        Self::lemma_cursor(*old(self), *self, ts);
                        Self::lemma_cursor(s1, *self, ts);
                        Self::lemma_cursor(s3, *self, ts);
                        assert(for_init_at(ts, self.src(), s2.pos(), s2.next_id(), reports_of(s2.diags())) == Ok::<(Option<Box<InitView>>, int, nat, Seq<Report>), (int, nat, Seq<Report>)>((opt_init_view(ini), s3.pos(), s3.next_id(), reports_of(s3.diags()))));
                        assert(for_clauses_at(ts, self.src(), s3.pos(), s3.next_id(), reports_of(s3.diags())) == Err::<(Option<ExprView>, Option<ExprView>, int, nat, Seq<Report>), (StmtView, int, nat, Seq<Report>)>((stmt_view(st), self.pos(), self.next_id(), reports_of(self.diags()))));
                    }
                }
                return st;
            },
        };
        let ghost s7 = *self;
        proof {
            Self::lemma_step_trans(*old(self), s3, s7);
            Self::lemma_ids_chain(*old(self), s3, s7, init_ids, opt_expr_ids(cond) + opt_expr_ids(incre));
            assert(init_ids + (opt_expr_ids(cond) + opt_expr_ids(incre)) =~= init_ids + opt_expr_ids(cond) + opt_expr_ids(incre));
        }
        let body = self.parse_statement();
        let ghost s8 = *self;
        let ghost b = body;
        proof {
            Self::lemma_step_trans(*old(self), s7, s8);
            Self::lemma_ids_chain(*old(self), s7, s8, init_ids + opt_expr_ids(cond) + opt_expr_ids(incre), stmt_ids(b));
        }
        let end_span = body.span;
        let ghost c = cond;
        let ghost inc = incre;
        let id = self.next_node_id();
        let st = Stmt::new(id, StmtKind::For(init, cond, incre, Box::new(body)), start_span.join(end_span));
        proof {
            assert(stmt_ids(st) == init_ids + opt_expr_ids(c) + opt_expr_ids(inc) + stmt_ids(b) + seq![id.0]);
            Self::lemma_stmt_node(*old(self), s8, *self, st, init_ids + opt_expr_ids(c) + opt_expr_ids(inc) + stmt_ids(b),
                init_err || opt_expr_has_error(c) || opt_expr_has_error(inc) || stmt_has_error(b));
            assert forall|ts: Seq<Token>| continues(ts, self.tokens()) implies #[trigger] for_at(ts, self.src(), old(self).pos(), old(self).next_id(), reports_of(old(self).diags()))
                == (stmt_view(st), self.pos(), self.next_id(), reports_of(self.diags())) by {
                lemma_continues_trans(self.tokens(), s7.tokens(), s8.tokens());
                lemma_continues_trans(self.tokens(), s3.tokens(), s7.tokens());
                lemma_continues_trans(self.tokens(), s2.tokens(), s3.tokens());
                lemma_continues_trans(self.tokens(), s1.tokens(), s2.tokens());
                Self::lemma_cursor(*old(self), *self, ts);
                Self::lemma_cursor(s1, *self, ts);
                Self::lemma_cursor(s3, *self, ts);
                Self::lemma_cursor(s7, *self, ts);
                Self::lemma_cursor(s8, *self, ts);
                assert(for_init_at(ts, self.src(), s2.pos(), s2.next_id(), reports_of(s2.diags())) == Ok::<(Option<Box<InitView>>, int, nat, Seq<Report>), (int, nat, Seq<Report>)>((opt_init_view(ini), s3.pos(), s3.next_id(), reports_of(s3.diags()))));
                assert(for_clauses_at(ts, self.src(), s3.pos(), s3.next_id(), reports_of(s3.diags())) == Ok::<(Option<ExprView>, Option<ExprView>, int, nat, Seq<Report>), (StmtView, int, nat, Seq<Report>)>((opt_expr_view(c), opt_expr_view(inc), s7.pos(), s7.next_id(), reports_of(s7.diags()))));
                assert(statement_at(ts, self.src(), s7.pos(), s7.next_id(), reports_of(s7.diags())) == (stmt_view(b), s8.pos(), s8.next_id(), reports_of(s8.diags())));
            }
        }
        st
    }
}
} // verus!
