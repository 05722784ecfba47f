//! The expression tree that the arithmetic parser builds.
use crate::parser::node_id::NodeId;
use crate::span::{Span, Spanned};
use vstd::prelude::*;

verus! {

/// A literal.
#[derive(Debug, PartialEq, Eq, Clone, Copy, Structural)]
pub enum LitKind {
    Int(u128),
}

#[derive(Debug, PartialEq, Eq, Clone, Copy, Structural)]
pub enum BinOpKind {
    Add,
    Sub,
    Mul,
    Div,
}

#[derive(Debug, PartialEq, Eq, Clone, Copy, Structural)]
pub enum UnaryOpKind {
    Negate,
}

/// The kinds of expression.
#[derive(Debug, PartialEq)]
pub enum ExprKind {
    /// A literal, e.g. `1`.
    Literal(LitKind),
    /// A binary operation, e.g. `1 * 2`.
    BinaryOp(Spanned<BinOpKind>, Box<Expr>, Box<Expr>),
    /// A unary operation, e.g. `-1`.
    UnaryOp(Spanned<UnaryOpKind>, Box<Expr>),
}

/// An expression: its node id, kind and span.
#[derive(Debug, PartialEq)]
pub struct Expr {
    pub id: NodeId,
    pub kind: ExprKind,
    pub span: Span,
}

impl Expr {
    pub fn new(id: NodeId, kind: ExprKind, span: Span) -> (e: Self)
        ensures
            e.id == id,
            e.kind == kind,
            e.span == span,
    {
        Self { id, kind, span }
    }
}

} // verus!
