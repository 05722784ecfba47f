//! A recursive descent parser for products and quotients of negations,
//! integer literals and parenthesised expressions.
use crate::diagnostics::Diagnostic;
use crate::lexer::token::{Token, TokenKind, TokenStream};
use crate::parser::ast::{BinOpKind, Expr, ExprKind, LitKind, UnaryOpKind};
use crate::parser::node_id::NodeId;
use crate::span::{Span, Spanned};
use crate::text::{decimal_value, is_u128_text, parse_u128_text, unsigned_digits};
use vstd::prelude::*;

verus! {

/// The id handed out after `n`; ids stop at `usize::MAX`.
pub open spec fn id_after(n: nat) -> nat {
    if n < usize::MAX { n + 1 } else { n }
}

/// The source text that token `t` covers.
pub open spec fn lexeme(src: Seq<u8>, t: Token) -> Seq<u8> {
    src.subrange(t.span.start_spec() as int, t.span.end_spec())
}

/// `ts` begins with the tokens `pre`.
pub open spec fn extends(ts: Seq<Token>, pre: Seq<Token>) -> bool {
    &&& pre.len() <= ts.len()
    &&& forall|k: int| 0 <= k < pre.len() ==> ts[k] == pre[k]
}

/// A primary expression at position `i` of the tokens `ts` of source `src`,
/// when ids are handed out from `n`: the expression, the position after it
/// and the next id; `None` where the tokens there form none.
pub open spec fn primary_at(ts: Seq<Token>, src: Seq<u8>, i: int, n: nat) -> Option<(Expr, int, nat)>
    decreases ts.len() - i, 0int,
{
    if !(0 <= i < ts.len()) {
        None
    } else if ts[i].kind is IntegerLiteral {
        let t = ts[i];
        if t.span.end_spec() <= src.len() && is_u128_text(lexeme(src, t)) {
            let v = decimal_value(unsigned_digits(lexeme(src, t))) as u128;
            Some((Expr { id: NodeId(n as usize), kind: ExprKind::Literal(LitKind::Int(v)), span: t.span }, i + 1, id_after(n)))
        } else {
            None
        }
    } else if ts[i].kind is OpenParen {
        match factor_at(ts, src, i + 1, n) {
            Some((e, j, m)) => if 0 <= j < ts.len() && ts[j].kind is CloseParen {
                Some((e, j + 1, m))
            } else {
                None
            },
            None => None,
        }
    } else {
        None
    }
}

/// A unary expression at position `i`, as `primary_at` describes: `-`
/// before a unary expression, or a primary one.
pub open spec fn unary_at(ts: Seq<Token>, src: Seq<u8>, i: int, n: nat) -> Option<(Expr, int, nat)>
    decreases ts.len() - i, 1int,
{
    if 0 <= i < ts.len() && ts[i].kind is Minus {
        match unary_at(ts, src, i + 1, n) {
            Some((r, j, m)) => Some((
                Expr {
                    id: NodeId(m as usize),
                    kind: ExprKind::UnaryOp(Spanned { node: UnaryOpKind::Negate, span: ts[i].span }, Box::new(r)),
                    span: r.span,
                },
                j,
                id_after(m),
            )),
            None => None,
        }
    } else {
        primary_at(ts, src, i, n)
    }
}

/// The operators `*` and `/` with their right operands from position `j`
/// on, folded to the left onto `left`.
pub open spec fn factor_rest(ts: Seq<Token>, src: Seq<u8>, left: Expr, j: int, n: nat) -> Option<(Expr, int, nat)>
    decreases ts.len() - j, 2int,
{
    if 0 <= j < ts.len() && (ts[j].kind is Star || ts[j].kind is Slash) {
        let op = ts[j];
        match unary_at(ts, src, j + 1, n) {
            Some((r, k, m)) => if j < k <= ts.len() {
                let kind = if op.kind is Star { BinOpKind::Mul } else { BinOpKind::Div };
                let e = Expr {
                    id: NodeId(m as usize),
                    kind: ExprKind::BinaryOp(Spanned { node: kind, span: op.span }, Box::new(left), Box::new(r)),
                    span: op.span.joined(r.span),
                };
                factor_rest(ts, src, e, k, id_after(m))
            } else {
                None
            },
            None => None,
        }
    } else {
        Some((left, j, n))
    }
}

/// A product or quotient of unary expressions at position `i`, as
/// `primary_at` describes.
pub open spec fn factor_at(ts: Seq<Token>, src: Seq<u8>, i: int, n: nat) -> Option<(Expr, int, nat)>
    decreases ts.len() - i, 3int,
{
    match unary_at(ts, src, i, n) {
        Some((l, j, m)) => if i < j <= ts.len() {
            factor_rest(ts, src, l, j, m)
        } else {
            None
        },
        None => None,
    }
}

pub struct Parser<'src, 'diag, T: TokenStream> {
    tokenstream: T,
    diagnostics: &'diag mut Vec<Diagnostic>,
    source: &'src [u8],
    current: Token,
    prev: Token,
    curr_nodeid: NodeId,
    read: Ghost<Seq<Token>>,
}

impl<'src, 'diag, T: TokenStream> Parser<'src, 'diag, T> {
    /// The source text.
    pub closed spec fn src(&self) -> Seq<u8> {
        self.source@
    }

    /// The diagnostics the parser was given.
    pub closed spec fn diags(&self) -> Seq<Diagnostic> {
        self.diagnostics@
    }

    /// Every token taken from the stream so far; the last one is under the
    /// cursor.
    pub closed spec fn tokens(&self) -> Seq<Token> {
        self.read@
    }

    /// The position of the token under the cursor.
    pub open spec fn pos(&self) -> int {
        self.tokens().len() - 1
    }

    /// The id the next node gets.
    pub closed spec fn next_id(&self) -> nat {
        self.curr_nodeid.0 as nat
    }

    /// What is left to parse: the stream's measure, and one more while the
    /// token under the cursor is not `Eof`.
    pub closed spec fn measure(&self) -> nat {
        self.tokenstream.remaining() + if self.current.kind is Eof { 0nat } else { 1nat }
    }

    /// The stream reads the parser's source and is consistent, and the token
    /// under the cursor is the last one read and lies in the source.
    pub closed spec fn wf(&self) -> bool {
        &&& self.tokenstream.stream_inv()
        &&& self.tokenstream.text() == self.source@
        &&& self.read@.len() >= 1
        &&& self.read@.last() == self.current
        &&& self.current.span.end_spec() <= self.source@.len()
        &&& self.prev.span.end_spec() <= self.source@.len()
        &&& self.source@.len() <= usize::MAX
    }

    /// What a parse that returned `r` and left the parser as `self` gives,
    /// in the form of `primary_at`.
    pub open spec fn outcome(&self, r: Option<Expr>) -> Option<(Expr, int, nat)> {
        match r {
            Some(e) => Some((e, self.pos(), self.next_id())),
            None => None,
        }
    }

    /// How a parsing step relates the parser after it to the parser before:
    /// same source and diagnostics, only more tokens read, nothing more left
    /// to parse.
    pub open spec fn step_from(&self, before: Self) -> bool {
        &&& self.wf()
        &&& self.src() == before.src()
        &&& self.diags() == before.diags()
        &&& extends(self.tokens(), before.tokens())
        &&& self.measure() <= before.measure()
    }

    /// A parse that returned `r`: when it returned an expression, the
    /// cursor moved on and the expression's span lies in the source.
    pub open spec fn advanced(&self, before: Self, r: Option<Expr>) -> bool {
        r matches Some(e) ==> self.pos() > before.pos() && e.span.end_spec() <= self.src().len()
    }

    /// A parser at the first token of `tokenstream`.
    pub fn new(mut tokenstream: T, diagnostics: &'diag mut Vec<Diagnostic>, source: &'src [u8]) -> (p: Self)
        requires
            tokenstream.stream_inv(),
            tokenstream.text() == source@,
        ensures
            p.wf(),
            p.src() == source@,
            p.diags() == old(diagnostics)@,
            p.tokens().len() == 1,
            p.next_id() == 0,
    {
        let current = tokenstream.next();
        let _n: usize = source.len();
        let read: Ghost<Seq<Token>> = Ghost(Seq::empty().push(current));
        Parser {
            tokenstream,
            diagnostics,
            current,
            prev: Token::dummy(),
            curr_nodeid: NodeId(0),
            source,
            read,
        }
    }

    /// Moves to the next token and gives the one that was under the cursor.
    fn advance(&mut self) -> (t: Token)
        requires
            old(self).wf(),
        ensures
            final(self).step_from(*old(self)),
            t == old(self).current,
            final(self).prev == old(self).current,
            final(self).tokens() == old(self).tokens().push(final(self).current),
            final(self).next_id() == old(self).next_id(),
            !(t.kind is Eof) ==> final(self).measure() < old(self).measure(),
    {
        self.prev = self.current;
        self.current = self.tokenstream.next();
        let ghost c = self.current;
        self.read = Ghost(self.read@.push(c));
        self.prev
    }

    /// Hands out the next node id.
    fn next_node_id(&mut self) -> (id: NodeId)
        requires
            old(self).wf(),
        ensures
            final(self).step_from(*old(self)),
            final(self).tokens() == old(self).tokens(),
            final(self).prev == old(self).prev,
            id.0 == old(self).next_id(),
            final(self).next_id() == id_after(old(self).next_id()),
    {
        let tmp = self.curr_nodeid;
        self.curr_nodeid.increment();
        tmp
    }

    /// Parses an expression from the token under the cursor, or gives
    /// `None` where the tokens form none.
    pub fn parse(&mut self) -> (r: Option<Expr>)
        requires
            old(self).wf(),
        ensures
            final(self).step_from(*old(self)),
            final(self).advanced(*old(self), r),
            forall|ts: Seq<Token>| extends(ts, final(self).tokens()) ==>
                #[trigger] factor_at(ts, final(self).src(), old(self).pos(), old(self).next_id()) == final(self).outcome(r),
    {
        self.parse_expression()
    }

    fn parse_expression(&mut self) -> (r: Option<Expr>)
        requires
            old(self).wf(),
        ensures
            final(self).step_from(*old(self)),
            final(self).advanced(*old(self), r),
            forall|ts: Seq<Token>| extends(ts, final(self).tokens()) ==>
                #[trigger] factor_at(ts, final(self).src(), old(self).pos(), old(self).next_id()) == final(self).outcome(r),
        decreases old(self).measure(), 4nat,
    {
        self.parse_term()
    }

    fn parse_term(&mut self) -> (r: Option<Expr>)
        requires
            old(self).wf(),
        ensures
            final(self).step_from(*old(self)),
            final(self).advanced(*old(self), r),
            forall|ts: Seq<Token>| extends(ts, final(self).tokens()) ==>
                #[trigger] factor_at(ts, final(self).src(), old(self).pos(), old(self).next_id()) == final(self).outcome(r),
        decreases old(self).measure(), 3nat,
    {
        self.parse_factor()
    }

    fn parse_factor(&mut self) -> (r: Option<Expr>)
        requires
            old(self).wf(),
        ensures
            final(self).step_from(*old(self)),
            final(self).advanced(*old(self), r),
            forall|ts: Seq<Token>| extends(ts, final(self).tokens()) ==>
                #[trigger] factor_at(ts, final(self).src(), old(self).pos(), old(self).next_id()) == final(self).outcome(r),
        decreases old(self).measure(), 2nat,
    {
        let ghost start = *self;
        let mut left = match self.parse_unary() {
            Some(e) => e,
            None => {
                proof {
                    assert forall|ts: Seq<Token>| extends(ts, self.tokens()) implies
                        #[trigger] factor_at(ts, self.src(), start.pos(), start.next_id()) == self.outcome(None) by {
                        assert(unary_at(ts, self.src(), start.pos(), start.next_id()) == self.outcome(None));
                    }
                }
                return None;
            },
        };
        proof {
            assert forall|ts: Seq<Token>| extends(ts, self.tokens()) implies
                #[trigger] factor_at(ts, self.src(), start.pos(), start.next_id())
                    == factor_rest(ts, self.src(), left, self.pos(), self.next_id()) by {
                assert(unary_at(ts, self.src(), start.pos(), start.next_id()) == self.outcome(Some(left)));
            }
        }
        while self.current.kind == TokenKind::Star || self.current.kind == TokenKind::Slash
            invariant
                start == *old(self),
                self.step_from(start),
                self.pos() > start.pos(),
                left.span.end_spec() <= self.src().len(),
                forall|ts: Seq<Token>| extends(ts, self.tokens()) ==>
                    #[trigger] factor_at(ts, self.src(), start.pos(), start.next_id())
                        == factor_rest(ts, self.src(), left, self.pos(), self.next_id()),
            decreases self.measure(),
        {
            let ghost mid = *self;
            let ghost l0 = left;
            let op = self.advance();
            let right = match self.parse_unary() {
                Some(e) => e,
                None => {
                    proof {
                        assert forall|ts: Seq<Token>| extends(ts, self.tokens()) implies
                            #[trigger] factor_at(ts, self.src(), start.pos(), start.next_id()) == self.outcome(None) by {
                            assert(extends(ts, mid.tokens()));
                            assert(ts[mid.pos()] == op);
                            assert(unary_at(ts, self.src(), mid.pos() + 1, mid.next_id()) == self.outcome(None));
                        }
                    }
                    return None;
                },
            };
            let ghost after_right = *self;
            let right_span = right.span;
            let kind = if op.kind == TokenKind::Star { BinOpKind::Mul } else { BinOpKind::Div };
            let id = self.next_node_id();
            left = Expr::new(
                id,
                ExprKind::BinaryOp(Spanned::new(kind, op.span), Box::new(left), Box::new(right)),
                op.span.join(right_span),
            );
            proof {
                assert forall|ts: Seq<Token>| extends(ts, self.tokens()) implies
                    #[trigger] factor_at(ts, self.src(), start.pos(), start.next_id())
                        == factor_rest(ts, self.src(), left, self.pos(), self.next_id()) by {
                    assert(extends(ts, mid.tokens()));
                    assert(ts[mid.pos()] == op);
                    assert(unary_at(ts, self.src(), mid.pos() + 1, mid.next_id()) == after_right.outcome(Some(right)));
                }
            }
        }
        proof {
            assert forall|ts: Seq<Token>| extends(ts, self.tokens()) implies
                #[trigger] factor_at(ts, self.src(), start.pos(), start.next_id()) == self.outcome(Some(left)) by {
                assert(ts[self.pos()] == self.current);
            }
        }
        Some(left)
    }

    fn parse_unary(&mut self) -> (r: Option<Expr>)
        requires
            old(self).wf(),
        ensures
            final(self).step_from(*old(self)),
            final(self).advanced(*old(self), r),
            forall|ts: Seq<Token>| extends(ts, final(self).tokens()) ==>
                #[trigger] unary_at(ts, final(self).src(), old(self).pos(), old(self).next_id()) == final(self).outcome(r),
        decreases old(self).measure(), 1nat,
    {
        let ghost start = *self;
        if self.current.kind == TokenKind::Minus {
            let op_span = self.advance().span;
            let ghost mid = *self;
            let right = match self.parse_unary() {
                Some(e) => e,
                None => {
                    proof {
                        assert forall|ts: Seq<Token>| extends(ts, self.tokens()) implies
                            #[trigger] unary_at(ts, self.src(), start.pos(), start.next_id()) == self.outcome(None) by {
                            assert(extends(ts, start.tokens()));
                            assert(ts[start.pos()] == start.current);
                            assert(unary_at(ts, self.src(), mid.pos(), mid.next_id()) == self.outcome(None));
                        }
                    }
                    return None;
                },
            };
            let ghost after_right = *self;
            let right_span = right.span;
            let id = self.next_node_id();
            let e = Expr::new(id, ExprKind::UnaryOp(Spanned::new(UnaryOpKind::Negate, op_span), Box::new(right)), right_span);
            proof {
                assert forall|ts: Seq<Token>| extends(ts, self.tokens()) implies
                    #[trigger] unary_at(ts, self.src(), start.pos(), start.next_id()) == self.outcome(Some(e)) by {
                    assert(extends(ts, start.tokens()));
                    assert(ts[start.pos()] == start.current);
                    assert(unary_at(ts, self.src(), mid.pos(), mid.next_id()) == after_right.outcome(Some(right)));
                }
            }
            return Some(e);
        }
        let r = self.parse_primary();
        proof {
            assert forall|ts: Seq<Token>| extends(ts, self.tokens()) implies
                #[trigger] unary_at(ts, self.src(), start.pos(), start.next_id()) == self.outcome(r) by {
                assert(extends(ts, start.tokens()));
                assert(ts[start.pos()] == start.current);
                assert(primary_at(ts, self.src(), start.pos(), start.next_id()) == self.outcome(r));
            }
        }
        r
    }

    fn parse_primary(&mut self) -> (r: Option<Expr>)
        requires
            old(self).wf(),
        ensures
            final(self).step_from(*old(self)),
            final(self).advanced(*old(self), r),
            forall|ts: Seq<Token>| extends(ts, final(self).tokens()) ==>
                #[trigger] primary_at(ts, final(self).src(), old(self).pos(), old(self).next_id()) == final(self).outcome(r),
        decreases old(self).measure(), 0nat,
    {
        let ghost start = *self;
        if self.current.kind == TokenKind::IntegerLiteral {
            self.advance();
            let lexeme = Span::retrieve_slice(self.source, &self.prev.span);
            match parse_u128_text(lexeme) {
                Some(value) => {
                    let id = self.next_node_id();
                    let e = Expr::new(id, ExprKind::Literal(LitKind::Int(value)), self.prev.span);
                    proof {
                        assert forall|ts: Seq<Token>| extends(ts, self.tokens()) implies
                            #[trigger] primary_at(ts, self.src(), start.pos(), start.next_id()) == self.outcome(Some(e)) by {
                            assert(extends(ts, start.tokens()));
                            assert(ts[start.pos()] == start.current);
                        }
                    }
                    Some(e)
                },
                None => {
                    proof {
                        assert forall|ts: Seq<Token>| extends(ts, self.tokens()) implies
                            #[trigger] primary_at(ts, self.src(), start.pos(), start.next_id()) == self.outcome(None) by {
                            assert(extends(ts, start.tokens()));
                            assert(ts[start.pos()] == start.current);
                        }
                    }
                    None
                },
            }
        } else if self.current.kind == TokenKind::OpenParen {
            self.advance();
            let ghost mid = *self;
            let inner = self.parse_expression();
            let ghost after_inner = *self;
            match inner {
                Some(expr) => {
                    if self.current.kind != TokenKind::CloseParen {
                        proof {
                            assert forall|ts: Seq<Token>| extends(ts, self.tokens()) implies
                                #[trigger] primary_at(ts, self.src(), start.pos(), start.next_id()) == self.outcome(None) by {
                                assert(extends(ts, start.tokens()));
                                assert(ts[start.pos()] == start.current);
                                assert(factor_at(ts, self.src(), mid.pos(), mid.next_id()) == after_inner.outcome(Some(expr)));
                                assert(ts[self.pos()] == self.current);
                            }
                        }
                        return None;
                    }
                    self.advance();
                    proof {
                        assert forall|ts: Seq<Token>| extends(ts, self.tokens()) implies
                            #[trigger] primary_at(ts, self.src(), start.pos(), start.next_id()) == self.outcome(Some(expr)) by {
                            assert(extends(ts, start.tokens()));
                            assert(extends(ts, after_inner.tokens()));
                            assert(ts[start.pos()] == start.current);
                            assert(factor_at(ts, self.src(), mid.pos(), mid.next_id()) == after_inner.outcome(Some(expr)));
                            assert(ts[after_inner.pos()] == after_inner.current);
                        }
                    }
                    Some(expr)
                },
                None => {
                    proof {
                        assert forall|ts: Seq<Token>| extends(ts, self.tokens()) implies
                            #[trigger] primary_at(ts, self.src(), start.pos(), start.next_id()) == self.outcome(None) by {
                            assert(extends(ts, start.tokens()));
                            assert(ts[start.pos()] == start.current);
                            assert(factor_at(ts, self.src(), mid.pos(), mid.next_id()) == after_inner.outcome(None));
                        }
                    }
                    None
                },
            }
        } else {
            proof {
                assert forall|ts: Seq<Token>| extends(ts, self.tokens()) implies
                    #[trigger] primary_at(ts, self.src(), start.pos(), start.next_id()) == self.outcome(None) by {
                    assert(ts[start.pos()] == start.current);
                }
            }
            None
        }
    }
}

} // verus!
