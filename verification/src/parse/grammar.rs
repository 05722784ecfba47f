//! The grammar the parser follows, as functions from a sequence of tokens
//! to the tree read at a position. Each gives the tree, the position after
//! it, the next node id and the reports so far, each error reported after
//! those before it; ids are handed out to each node after its children.
//! Positions outside the tokens give no meaningful result, and the parser
//! never asks for one.
use crate::lex::lex_nth;
use crate::lex::token::{Token, TokenKind};
use crate::analysis::types::{err, Report, Type};
use crate::parse::parser::unexpected_token_text;
use crate::parse::ast::{
    binop_of, expr_view, Expr, ExprKind, ExprShape, ExprView, InitView, LitKind, StmtShape, StmtView, UnaryOpKind,
};
use crate::parser::parser::id_after;
use crate::span::{Span, Spanned};
use crate::text::decimal_value;
use vstd::prelude::*;

verus! {

/// The source text that token `t` covers.
pub open spec fn token_text(src: Seq<u8>, t: Token) -> Seq<u8> {
    src.subrange(t.span.start_spec() as int, t.span.end_spec())
}

/// `ts` begins with the tokens `pre`.
#[verifier::opaque]
pub open spec fn continues(ts: Seq<Token>, pre: Seq<Token>) -> bool {
    &&& pre.len() <= ts.len()
    &&& forall|k: int| 0 <= k < pre.len() ==> ts[k] == pre[k]
}

/// The precedence of the binary operator that `k` stands for: `||` binds
/// loosest (6), `*` and `/` tightest (1); 0 for a token that is none.
pub open spec fn op_level(k: TokenKind) -> int {
    match k {
        TokenKind::Or => 6,
        TokenKind::And => 5,
        TokenKind::EqualEqual | TokenKind::BangEqual => 4,
        TokenKind::LessThan | TokenKind::GreaterThan | TokenKind::LessEq | TokenKind::GreaterEq => 3,
        TokenKind::Plus | TokenKind::Minus => 2,
        TokenKind::Star | TokenKind::Slash => 1,
        _ => 0,
    }
}

/// The order in which the binary levels call each other.
pub open spec fn rank(level: int) -> int {
    if level > 1 { 2 * level + 10 } else { 12 }
}

/// A node of the tree.
pub open spec fn node(id: nat, kind: ExprShape, span: Span) -> ExprView {
    ExprView { id, kind, span }
}

/// An expression at position `i`.
pub open spec fn expression_at(ts: Seq<Token>, src: Seq<u8>, i: int, n: nat, r: Seq<Report>) -> (ExprView, int, nat, Seq<Report>)
    decreases ts.len() - i, 30int,
{
    assignment_at(ts, src, i, n, r)
}

/// An assignment, which groups to the right, or an operand of `||`.
pub open spec fn assignment_at(ts: Seq<Token>, src: Seq<u8>, i: int, n: nat, r: Seq<Report>) -> (ExprView, int, nat, Seq<Report>)
    decreases ts.len() - i, 29int,
{
    if !(0 <= i < ts.len()) {
        arbitrary()
    } else {
        let (l, j, m, r1) = binary_at(ts, src, i, n, r, 6);
        if i <= j < ts.len() && ts[j].kind is Equal {
            let (rt, k, m2, r2) = assignment_at(ts, src, j + 1, m, r1);
            (node(m2, ExprShape::VarAssign(Box::new(l), Box::new(rt)), l.span.joined(rt.span)), k, id_after(m2), r2)
        } else {
            (l, j, m, r1)
        }
    }
}

/// Operands of the binary operators of precedence `level` and tighter,
/// joined to the left.
pub open spec fn binary_at(ts: Seq<Token>, src: Seq<u8>, i: int, n: nat, r: Seq<Report>, level: int) -> (ExprView, int, nat, Seq<Report>)
    decreases ts.len() - i, rank(level),
{
    if !(0 <= i < ts.len()) {
        arbitrary()
    } else {
        let (l, j, m, r1) = if level > 1 { binary_at(ts, src, i, n, r, level - 1) } else { unary_at(ts, src, i, n, r) };
        if i <= j <= ts.len() {
            binary_rest(ts, src, l.span, l, j, m, r1, level)
        } else {
            arbitrary()
        }
    }
}

/// The operators of precedence `level`, with their right operands from
/// position `j` on, joined to the left onto `left`; each node spans from
/// `start` to the end of its right operand.
pub open spec fn binary_rest(ts: Seq<Token>, src: Seq<u8>, start: Span, left: ExprView, j: int, n: nat, r: Seq<Report>, level: int) -> (ExprView, int, nat, Seq<Report>)
    decreases ts.len() - j, rank(level) - 1,
{
    if 0 <= j < ts.len() && level >= 1 && op_level(ts[j].kind) == level {
        let (rt, k, m, r1) = if level > 1 { binary_at(ts, src, j + 1, n, r, level - 1) } else { unary_at(ts, src, j + 1, n, r) };
        if j < k <= ts.len() {
            let op = Spanned { node: binop_of(ts[j].kind)->0, span: ts[j].span };
            let e = node(m, ExprShape::BinaryOp(op, Box::new(left), Box::new(rt)), start.joined(rt.span));
            binary_rest(ts, src, start, e, k, id_after(m), r1, level)
        } else {
            arbitrary()
        }
    } else {
        (left, j, n, r)
    }
}

/// Prefix `-`, `++` and `--` before a unary expression, or a postfix one.
pub open spec fn unary_at(ts: Seq<Token>, src: Seq<u8>, i: int, n: nat, r: Seq<Report>) -> (ExprView, int, nat, Seq<Report>)
    decreases ts.len() - i, 8int,
{
    if 0 <= i < ts.len() && (ts[i].kind is Minus || ts[i].kind is PlusPlus || ts[i].kind is MinusMinus) {
        let t = ts[i];
        let (o, j, m, r1) = unary_at(ts, src, i + 1, n, r);
        let e = if t.kind is Minus {
            node(m, ExprShape::UnaryOp(Spanned { node: UnaryOpKind::Negate, span: t.span }, Box::new(o)), o.span.joined(t.span))
        } else if t.kind is PlusPlus {
            node(m, ExprShape::UnaryOp(Spanned { node: UnaryOpKind::PreIncrement, span: t.span }, Box::new(o)), t.span.joined(o.span))
        } else {
            node(m, ExprShape::UnaryOp(Spanned { node: UnaryOpKind::PreDecrement, span: t.span }, Box::new(o)), t.span.joined(o.span))
        };
        (e, j, id_after(m), r1)
    } else {
        postfix_at(ts, src, i, n, r)
    }
}

/// A primary expression followed by any number of `++` and `--`.
pub open spec fn postfix_at(ts: Seq<Token>, src: Seq<u8>, i: int, n: nat, r: Seq<Report>) -> (ExprView, int, nat, Seq<Report>)
    decreases ts.len() - i, 7int,
{
    let (p, j, m, r1) = primary_at(ts, src, i, n, r);
    if 0 <= i <= j <= ts.len() {
        postfix_rest(ts, src, p, j, m, r1)
    } else {
        arbitrary()
    }
}

/// The postfix `++` and `--` from position `j` on, applied to `e`.
pub open spec fn postfix_rest(ts: Seq<Token>, src: Seq<u8>, e: ExprView, j: int, n: nat, r: Seq<Report>) -> (ExprView, int, nat, Seq<Report>)
    decreases ts.len() - j, 6int,
{
    if 0 <= j < ts.len() && (ts[j].kind is PlusPlus || ts[j].kind is MinusMinus) {
        let op = if ts[j].kind is PlusPlus { UnaryOpKind::PostIncrement } else { UnaryOpKind::PostDecrement };
        let e2 = node(n, ExprShape::UnaryOp(Spanned { node: op, span: ts[j].span }, Box::new(e)), ts[j].span.joined(e.span));
        postfix_rest(ts, src, e2, j + 1, id_after(n), r)
    } else {
        (e, j, n, r)
    }
}

/// A literal, a name, or an expression in parentheses. A parenthesis that
/// is not closed gives an `Error` node in place of the expression, at the
/// token found instead, which is passed over; a token that begins no
/// expression gives an `Error` node at it and is not passed over. Each
/// error is reported.
pub open spec fn primary_at(ts: Seq<Token>, src: Seq<u8>, i: int, n: nat, r: Seq<Report>) -> (ExprView, int, nat, Seq<Report>)
    decreases ts.len() - i, 5int,
{
    if !(0 <= i < ts.len()) {
        arbitrary()
    } else {
        let t = ts[i];
        if t.kind is IntegerLiteral {
            (node(n, ExprShape::Literal(LitKind::Int(decimal_value(token_text(src, t)) as u128)), t.span), i + 1, id_after(n), r)
        } else if t.kind is OpenParen {
            let (e, j, m, r1) = expression_at(ts, src, i + 1, n, r);
            if !(0 <= j < ts.len()) {
                arbitrary()
            } else if ts[j].kind is CloseParen {
                (ExprView { id: e.id, kind: e.kind, span: e.span.joined(t.span).joined(ts[j].span) }, j + 1, m, r1)
            } else {
                (node(m, ExprShape::Error, ts[j].span), j + 1, id_after(m),
                    r1 + err("expected ')' after expression"@, ts[j].span))
            }
        } else if t.kind is Identifier {
            (node(n, ExprShape::Variable(token_text(src, t)), t.span), i + 1, id_after(n), r)
        } else if t.kind is True || t.kind is False {
            (node(n, ExprShape::Literal(LitKind::Bool(t.kind is True)), t.span), i + 1, id_after(n), r)
        } else {
            (node(n, ExprShape::Error, t.span), i, id_after(n), r + err(unexpected_token_text(token_text(src, t)), t.span))
        }
    }
}

/// A statement node.
pub open spec fn snode(id: nat, kind: StmtShape, span: Span) -> StmtView {
    StmtView { id, kind, span }
}

/// Where skipping tokens after an error stops, from position `i`: past the
/// next `;`, or at `Eof` or a token that begins a statement or a block.
pub open spec fn sync_at(ts: Seq<Token>, i: int) -> int
    decreases ts.len() - i,
{
    if !(0 <= i < ts.len()) {
        i
    } else {
        let k = ts[i].kind;
        if k is Eof {
            i
        } else if k is Semicolon {
            i + 1
        } else if k is Print || k is Let || k is If || k is While || k is For || k is Break || k is Continue || k is OpenBrace {
            i
        } else {
            sync_at(ts, i + 1)
        }
    }
}

/// An `Error` statement about `span` with id `n`, after the reports `r`
/// and the report of `message` about `span`; parsing goes on from `i`.
pub open spec fn failed(n: nat, message: Seq<char>, span: Span, i: int, r: Seq<Report>) -> (StmtView, int, nat, Seq<Report>) {
    (snode(n, StmtShape::Error, span), i, id_after(n), r + err(message, span))
}

/// A statement at position `i`.
pub open spec fn statement_at(ts: Seq<Token>, src: Seq<u8>, i: int, n: nat, r: Seq<Report>) -> (StmtView, int, nat, Seq<Report>)
    decreases ts.len() - i, 40int,
{
    if !(0 <= i < ts.len()) {
        arbitrary()
    } else {
        let k = ts[i].kind;
        if k is Print {
            print_at(ts, src, i, n, r)
        } else if k is IntegerLiteral || k is OpenParen || k is Identifier {
            exprstmt_at(ts, src, i, n, r)
        } else if k is Let {
            var_decl_at(ts, src, i, n, r)
        } else if k is OpenBrace {
            block_at(ts, src, i, n, r)
        } else if k is If {
            if_at(ts, src, i, n, r)
        } else if k is While {
            while_at(ts, src, i, n, r)
        } else if k is Break || k is Continue {
            jump_at(ts, src, i, n, r)
        } else if k is For {
            for_at(ts, src, i, n, r)
        } else {
            failed(n, "unexpected token"@, ts[i].span, i + 1, r)
        }
    }
}

/// `break ;` or `continue ;`.
pub open spec fn jump_at(ts: Seq<Token>, src: Seq<u8>, i: int, n: nat, r: Seq<Report>) -> (StmtView, int, nat, Seq<Report>)
    decreases ts.len() - i, 39int,
{
    let j = i + 1;
    if !(0 <= i && j < ts.len()) {
        arbitrary()
    } else if !(ts[j].kind is Semicolon) {
        let message = if ts[i].kind is Break {
            "expected ';' after break statement"@
        } else {
            "expected ';' after continue statement"@
        };
        failed(n, message, ts[j].span, j, r)
    } else {
        let kind = if ts[i].kind is Break { StmtShape::Break } else { StmtShape::Continue };
        (snode(n, kind, ts[i].span.joined(ts[j].span)), j + 1, id_after(n), r)
    }
}

/// An expression followed by `;`.
pub open spec fn exprstmt_at(ts: Seq<Token>, src: Seq<u8>, i: int, n: nat, r: Seq<Report>) -> (StmtView, int, nat, Seq<Report>)
    decreases ts.len() - i, 39int,
{
    let (e, j, m, r1) = expression_at(ts, src, i, n, r);
    if !(0 <= i <= j < ts.len()) {
        arbitrary()
    } else if !(ts[j].kind is Semicolon) {
        failed(m, "expected ';' after statement"@, ts[j].span, sync_at(ts, j + 1), r1)
    } else {
        (snode(m, StmtShape::ExprStmt(e), e.span.joined(ts[j].span)), j + 1, id_after(m), r1)
    }
}

/// `print ( expression ) ;`.
pub open spec fn print_at(ts: Seq<Token>, src: Seq<u8>, i: int, n: nat, r: Seq<Report>) -> (StmtView, int, nat, Seq<Report>)
    decreases ts.len() - i, 39int,
{
    let j = i + 1;
    if !(0 <= i && j < ts.len()) {
        arbitrary()
    } else if !(ts[j].kind is OpenParen) {
        failed(n, "expected '(' after keyword 'print'"@, ts[j].span, sync_at(ts, j + 1), r)
    } else {
        let (e, k, m, r1) = expression_at(ts, src, j + 1, n, r);
        if !(j < k && k + 1 < ts.len()) {
            arbitrary()
        } else if !(ts[k].kind is CloseParen) {
            failed(m, "expected ')' after expression"@, ts[k].span, sync_at(ts, k + 1), r1)
        } else if !(ts[k + 1].kind is Semicolon) {
            failed(m, "expected ';' after statement"@, ts[k + 1].span, sync_at(ts, k + 2), r1)
        } else {
            (snode(m, StmtShape::Print(e), ts[k + 1].span.joined(ts[i].span)), k + 2, id_after(m), r1)
        }
    }
}

/// `{ statements }`; a block that reaches `Eof` is an error at it.
pub open spec fn block_at(ts: Seq<Token>, src: Seq<u8>, i: int, n: nat, r: Seq<Report>) -> (StmtView, int, nat, Seq<Report>)
    decreases ts.len() - i, 39int,
{
    if !(0 <= i < ts.len()) {
        arbitrary()
    } else {
        let (body, k, m, r1) = block_rest(ts, src, i + 1, n, r, seq![]);
        if !(i < k < ts.len()) {
            arbitrary()
        } else if !(ts[k].kind is CloseBrace) {
            failed(m, "unterminated block"@, ts[k].span, k + 1, r1)
        } else {
            (snode(m, StmtShape::Block(body), ts[i].span.joined(ts[k].span)), k + 1, id_after(m), r1)
        }
    }
}

/// The statements from position `j` up to `}` or `Eof`, after `acc`.
pub open spec fn block_rest(ts: Seq<Token>, src: Seq<u8>, j: int, n: nat, r: Seq<Report>, acc: Seq<StmtView>) -> (Seq<StmtView>, int, nat, Seq<Report>)
    decreases ts.len() - j, 41int,
{
    if !(0 <= j < ts.len()) {
        arbitrary()
    } else if ts[j].kind is Eof || ts[j].kind is CloseBrace {
        (acc, j, n, r)
    } else {
        let (st, k, m, r1) = statement_at(ts, src, j, n, r);
        if j < k <= ts.len() {
            block_rest(ts, src, k, m, r1, acc.push(st))
        } else {
            arbitrary()
        }
    }
}

/// A condition in parentheses after the keyword at `i`: the condition,
/// the position after `)`, the next id and the reports; or the `Error`
/// statement in its place.
pub open spec fn condition_at(ts: Seq<Token>, src: Seq<u8>, i: int, n: nat, r: Seq<Report>)
    -> Result<(ExprView, int, nat, Seq<Report>), (StmtView, int, nat, Seq<Report>)>
    decreases ts.len() - i, 39int,
{
    let j = i + 1;
    if !(0 <= i && j < ts.len()) {
        arbitrary()
    } else if !(ts[j].kind is OpenParen) {
        Err(failed(n, "expected '('"@, ts[j].span, j, r))
    } else {
        let (c, k, m, r1) = expression_at(ts, src, j + 1, n, r);
        if !(j < k < ts.len()) {
            arbitrary()
        } else if !(ts[k].kind is CloseParen) {
            Err(failed(m, "expected ')'"@, ts[k].span, k, r1))
        } else {
            Ok((c, k + 1, m, r1))
        }
    }
}

/// `while ( condition ) statement`.
pub open spec fn while_at(ts: Seq<Token>, src: Seq<u8>, i: int, n: nat, r: Seq<Report>) -> (StmtView, int, nat, Seq<Report>)
    decreases ts.len() - i, 39int,
{
    match condition_at(ts, src, i, n, r) {
        Err(f) => f,
        Ok((c, k, m, r1)) => if 0 <= i < k <= ts.len() {
            let (b, l, m2, r2) = statement_at(ts, src, k, m, r1);
            (snode(m2, StmtShape::While(c, Box::new(b)), ts[i].span.joined(b.span)), l, id_after(m2), r2)
        } else {
            arbitrary()
        },
    }
}

/// `if ( condition ) statement`, with `else` and a statement after it.
pub open spec fn if_at(ts: Seq<Token>, src: Seq<u8>, i: int, n: nat, r: Seq<Report>) -> (StmtView, int, nat, Seq<Report>)
    decreases ts.len() - i, 39int,
{
    match condition_at(ts, src, i, n, r) {
        Err(f) => f,
        Ok((c, k, m, r1)) => if 0 <= i < k <= ts.len() {
            let (b, l, m2, r2) = statement_at(ts, src, k, m, r1);
            if !(k < l && l < ts.len()) {
                arbitrary()
            } else if ts[l].kind is Else && l + 1 < ts.len() {
                let (eb, p, m3, r3) = if ts[l + 1].kind is If { if_at(ts, src, l + 1, m2, r2) } else { statement_at(ts, src, l + 1, m2, r2) };
                (snode(m3, StmtShape::If(c, Box::new(b), Some(Box::new(eb))), ts[i].span.joined(eb.span)), p, id_after(m3), r3)
            } else {
                (snode(m2, StmtShape::If(c, Box::new(b), None), ts[i].span.joined(b.span)), l, id_after(m2), r2)
            }
        } else {
            arbitrary()
        },
    }
}

/// `let name : type = expression ;`, where the type and the initializer
/// may each be left out, but not both.
pub open spec fn var_decl_at(ts: Seq<Token>, src: Seq<u8>, i: int, n: nat, r: Seq<Report>) -> (StmtView, int, nat, Seq<Report>)
    decreases ts.len() - i, 39int,
{
    let start = ts[i].span;
    let j = i + 1;
    let j2 = j + 1;
    if !(0 <= i && j < ts.len()) {
        arbitrary()
    } else if !(ts[j].kind is Identifier) {
        failed(n, "expected identifer"@, start, j, r)
    } else if !(j2 < ts.len()) {
        arbitrary()
    } else {
        let name = token_text(src, ts[j]);
        if ts[j2].kind is Colon {
            typed_decl_at(ts, src, j2 + 1, n, r, start, name)
        } else if ts[j2].kind is Equal {
            decl_init_at(ts, src, j2 + 1, n, r, start, name, None)
        } else {
            failed(n, "expected '=' or ';'"@, start.joined(ts[j2].span), j2, r)
        }
    }
}

/// The rest of a declaration of `name` from its type at `j`, the
/// declaration starting at `start`.
pub open spec fn typed_decl_at(ts: Seq<Token>, src: Seq<u8>, j: int, n: nat, r: Seq<Report>, start: Span, name: Seq<u8>) -> (StmtView, int, nat, Seq<Report>) {
    if !(0 <= j < ts.len()) {
        arbitrary()
    } else if !(ts[j].kind is Int || ts[j].kind is Bool) {
        failed(n, "expected a type annotation"@, ts[j].span, j + 1, r)
    } else if !(j + 1 < ts.len()) {
        arbitrary()
    } else {
        let ty = if ts[j].kind is Int { Type::Int } else { Type::Bool };
        let k = j + 1;
        if ts[k].kind is Equal {
            decl_init_at(ts, src, k + 1, n, r, start, name, Some(ty))
        } else if ts[k].kind is Semicolon {
            (snode(n, StmtShape::VarDecl(name, Some(ty), None), start.joined(ts[k].span)), k + 1, id_after(n), r)
        } else {
            failed(n, "expected '=' or ';'"@, start.joined(ts[k].span), k, r)
        }
    }
}

/// The initializer at `j` of a declaration of `name` with type `ty`, and
/// the `;` after it; the declaration starts at `start`.
pub open spec fn decl_init_at(ts: Seq<Token>, src: Seq<u8>, j: int, n: nat, r: Seq<Report>, start: Span, name: Seq<u8>, ty: Option<Type>) -> (StmtView, int, nat, Seq<Report>) {
    let (init, k, m, r1) = expression_at(ts, src, j, n, r);
    if !(0 <= j <= k < ts.len()) {
        arbitrary()
    } else if !(ts[k].kind is Semicolon) {
        if ty is Some {
            failed(m, "expected ';' after variable declaration"@, ts[k].span, k + 1, r1)
        } else {
            failed(m, "expected ';' after expression"@, start.joined(ts[k].span), k + 1, r1)
        }
    } else {
        (snode(m, StmtShape::VarDecl(name, ty, Some(init)), start.joined(ts[k].span)), k + 1, id_after(m), r1)
    }
}

/// The initializer of a `for` loop at `j`: a declaration, nothing before
/// `;`, or an expression and `;`. `Err` holds where an expression is not
/// followed by `;`, which is reported: the position there, the next id and
/// the reports.
pub open spec fn for_init_at(ts: Seq<Token>, src: Seq<u8>, j: int, n: nat, r: Seq<Report>)
    -> Result<(Option<Box<InitView>>, int, nat, Seq<Report>), (int, nat, Seq<Report>)>
    decreases ts.len() - j, 41int,
{
    if !(0 <= j < ts.len()) {
        arbitrary()
    } else if ts[j].kind is Let {
        let (d, k, m, r1) = statement_at(ts, src, j, n, r);
        Ok((Some(Box::new(InitView::Statement(d))), k, m, r1))
    } else if ts[j].kind is Semicolon {
        Ok((None, j + 1, n, r))
    } else {
        let (x, k, m, r1) = expression_at(ts, src, j, n, r);
        if !(0 <= k < ts.len()) {
            arbitrary()
        } else if !(ts[k].kind is Semicolon) {
            Err((k, m, r1 + err("expected ';' after loop initializer"@, ts[k].span)))
        } else {
            Ok((Some(Box::new(InitView::Expr(x))), k + 1, m, r1))
        }
    }
}

/// An expression at `i` unless the token there is `stop`.
pub open spec fn opt_expression_at(ts: Seq<Token>, src: Seq<u8>, i: int, n: nat, r: Seq<Report>, stop: TokenKind) -> (Option<ExprView>, int, nat, Seq<Report>)
    decreases ts.len() - i, 31int,
{
    if 0 <= i < ts.len() && ts[i].kind == stop {
        (None, i, n, r)
    } else {
        let (x, k, m, r1) = expression_at(ts, src, i, n, r);
        (Some(x), k, m, r1)
    }
}

/// The condition, `;`, the increment and `)` of a `for` loop from `i`,
/// either expression possibly left out: both, the position after `)`, the
/// next id and the reports; or the `Error` statement in their place.
pub open spec fn for_clauses_at(ts: Seq<Token>, src: Seq<u8>, i: int, n: nat, r: Seq<Report>)
    -> Result<(Option<ExprView>, Option<ExprView>, int, nat, Seq<Report>), (StmtView, int, nat, Seq<Report>)> {
    let (c, p, m, r1) = opt_expression_at(ts, src, i, n, r, TokenKind::Semicolon);
    if !(0 <= i <= p < ts.len()) {
        arbitrary()
    } else if !(ts[p].kind is Semicolon) {
        Err(failed(m, "expected ';' after for loop condition"@, ts[p].span, p, r1))
    } else if !(p + 1 < ts.len()) {
        arbitrary()
    } else {
        let (inc, q, m2, r2) = opt_expression_at(ts, src, p + 1, m, r1, TokenKind::CloseParen);
        if !(p < q < ts.len()) {
            arbitrary()
        } else if !(ts[q].kind is CloseParen) {
            Err(failed(m2, "expected ')'"@, ts[q].span, q, r2))
        } else {
            Ok((c, inc, q + 1, m2, r2))
        }
    }
}

/// `for ( initializer condition ; increment ) statement`, where the
/// condition and the increment may be left out.
pub open spec fn for_at(ts: Seq<Token>, src: Seq<u8>, i: int, n: nat, r: Seq<Report>) -> (StmtView, int, nat, Seq<Report>)
    decreases ts.len() - i, 39int,
{
    let j = i + 1;
    if !(0 <= i && j < ts.len()) {
        arbitrary()
    } else if !(ts[j].kind is OpenParen) {
        failed(n, "expected '('"@, ts[j].span, j, r)
    } else if !(j + 1 < ts.len()) {
        arbitrary()
    } else {
        match for_init_at(ts, src, j + 1, n, r) {
            Err((k, m, r1)) => if 0 <= k < ts.len() {
                (snode(m, StmtShape::Error, ts[k].span), k, id_after(m), r1)
            } else {
                arbitrary()
            },
            Ok((init, p, m, r1)) => match for_clauses_at(ts, src, p, m, r1) {
                Err(f) => f,
                Ok((c, inc, q, m2, r2)) => if j < q <= ts.len() {
                    let (b, k, m3, r3) = statement_at(ts, src, q, m2, r2);
                    (snode(m3, StmtShape::For(init, c, inc, Box::new(b)), ts[i].span.joined(b.span)), k, id_after(m3), r3)
                } else {
                    arbitrary()
                },
            },
        }
    }
}

/// The statements from position `i` up to `Eof`, after `acc`.
pub open spec fn program_rest(ts: Seq<Token>, src: Seq<u8>, i: int, n: nat, r: Seq<Report>, acc: Seq<StmtView>) -> (Seq<StmtView>, int, nat, Seq<Report>)
    decreases ts.len() - i,
{
    if !(0 <= i < ts.len()) {
        arbitrary()
    } else if ts[i].kind is Eof {
        (acc, i, n, r)
    } else {
        let (st, k, m, r1) = statement_at(ts, src, i, n, r);
        if i < k <= ts.len() {
            program_rest(ts, src, k, m, r1, acc.push(st))
        } else {
            arbitrary()
        }
    }
}

/// The first `n` tokens a lexer produces from the start of `src`.
pub open spec fn lexed(src: Seq<u8>, n: nat) -> Seq<Token> {
    Seq::new(n, |i: int| lex_nth(src, 0, i as nat))
}

/// `body` is the program the grammar reads from the first `n` tokens of
/// `src`, up to the `Eof` that is the last of them.
pub open spec fn parsed_from(src: Seq<u8>, n: nat, body: Seq<StmtView>) -> bool {
    let (v, k, _m, _r) = program_rest(lexed(src, n), src, 0, 0, seq![], seq![]);
    &&& v == body
    &&& k == n - 1
}

/// The reports that parsing the first `n` tokens of `src` gives, in order.
pub open spec fn parse_reports(src: Seq<u8>, n: nat) -> Seq<Report> {
    program_rest(lexed(src, n), src, 0, 0, seq![], seq![]).3
}

/// Tokens that agree with `pre` on its positions continue it.
pub proof fn lemma_continues_intro(ts: Seq<Token>, pre: Seq<Token>)
    requires
        pre.len() <= ts.len(),
        forall|i: int| 0 <= i < pre.len() ==> ts[i] == pre[i],
    ensures
        continues(ts, pre),
{
    reveal(continues);
}

/// `continues` composes.
pub proof fn lemma_continues_trans(ts: Seq<Token>, a: Seq<Token>, b: Seq<Token>)
    requires
        continues(b, a),
        continues(ts, b),
    ensures
        continues(ts, a),
{
    reveal(continues);
    assert forall|k: int| 0 <= k < a.len() implies ts[k] == a[k] by {
        assert(ts[k] == b[k]);
    }
}

/// Tokens continue themselves.
pub proof fn lemma_continues_refl(a: Seq<Token>)
    ensures
        continues(a, a),
{
    reveal(continues);
}

/// One more token continues the tokens before it.
pub proof fn lemma_continues_push(a: Seq<Token>, t: Token)
    ensures
        continues(a.push(t), a),
{
    reveal(continues);
}

/// What continuing tokens hold at a position of those they continue.
pub proof fn lemma_continues_at(ts: Seq<Token>, pre: Seq<Token>, k: int)
    requires
        continues(ts, pre),
        0 <= k < pre.len(),
    ensures
        ts[k] == pre[k],
{
    reveal(continues);
}

/// Continuing tokens are at least as many.
pub proof fn lemma_continues_len(ts: Seq<Token>, pre: Seq<Token>)
    requires
        continues(ts, pre),
    ensures
        pre.len() <= ts.len(),
{
    reveal(continues);
}

/// One more operator of precedence `level` at `j`, with its right operand
/// `right` ending at `k`, makes the node `e` out of `left`.
pub proof fn lemma_binary_step(ts: Seq<Token>, src: Seq<u8>, start: Span, left: Expr, right: Expr, e: Expr,
    j: int, k: int, n: nat, m: nat, r: Seq<Report>, r1: Seq<Report>, level: int)
    requires
        0 <= j < ts.len(),
        level >= 1,
        op_level(ts[j].kind) == level,
        (if level > 1 { binary_at(ts, src, j + 1, n, r, level - 1) } else { unary_at(ts, src, j + 1, n, r) })
            == (expr_view(right), k, m, r1),
        j < k <= ts.len(),
        e.id.0 == m,
        e.kind == ExprKind::BinaryOp(Spanned { node: binop_of(ts[j].kind)->0, span: ts[j].span }, Box::new(left), Box::new(right)),
        e.span == start.joined(right.span),
    ensures
        binary_rest(ts, src, start, expr_view(left), j, n, r, level)
            == binary_rest(ts, src, start, expr_view(e), k, id_after(m), r1, level),
{
}

/// The first operand `left`, from `i` to `j`, of the operators of
/// precedence `level`.
pub proof fn lemma_binary_first(ts: Seq<Token>, src: Seq<u8>, left: Expr, i: int, j: int, n: nat, m: nat,
    r: Seq<Report>, r1: Seq<Report>, level: int)
    requires
        0 <= i < ts.len(),
        i <= j <= ts.len(),
        (if level > 1 { binary_at(ts, src, i, n, r, level - 1) } else { unary_at(ts, src, i, n, r) })
            == (expr_view(left), j, m, r1),
    ensures
        binary_at(ts, src, i, n, r, level) == binary_rest(ts, src, left.span, expr_view(left), j, m, r1, level),
{
}

} // verus!
