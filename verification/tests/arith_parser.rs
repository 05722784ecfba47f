use oplang::diagnostics::Diagnostic;
use oplang::lexer::lexer::Lexer;
use oplang::parser::ast::{BinOpKind, Expr, ExprKind, LitKind, UnaryOpKind};
use oplang::parser::node_id::NodeId;
use oplang::parser::parser::Parser;
use oplang::span::{Span, Spanned};

fn parse(source: &[u8]) -> Option<Expr> {
    let mut diagnostics: Vec<Diagnostic> = Vec::new();
    let mut parser = Parser::new(Lexer::new(source), &mut diagnostics, source);
    parser.parse()
}

fn literal(id: usize, value: u128, start: usize, len: usize) -> Expr {
    Expr::new(NodeId(id), ExprKind::Literal(LitKind::Int(value)), Span::new(start, len))
}

#[test]
fn product_of_a_negation() {
    let expected = Expr::new(
        NodeId(3),
        ExprKind::BinaryOp(
            Spanned::new(BinOpKind::Mul, Span::new(2, 1)),
            Box::new(literal(0, 2, 0, 1)),
            Box::new(Expr::new(
                NodeId(2),
                ExprKind::UnaryOp(Spanned::new(UnaryOpKind::Negate, Span::new(4, 1)), Box::new(literal(1, 3, 5, 1))),
                Span::new(5, 1),
            )),
        ),
        Span::new(2, 4),
    );
    assert_eq!(Some(expected), parse(b"2 * -3"));
}

#[test]
fn quotients_fold_to_the_left() {
    match parse(b"8 / 4 / 2") {
        Some(e) => match e.kind {
            ExprKind::BinaryOp(op, left, right) => {
                assert_eq!(BinOpKind::Div, op.node);
                assert_eq!(literal(3, 2, 8, 1), *right);
                assert!(matches!(left.kind, ExprKind::BinaryOp(..)));
            }
            _ => panic!("expected a quotient"),
        },
        None => panic!("expected an expression"),
    }
}

#[test]
fn parentheses_give_the_inner_expression() {
    assert_eq!(Some(literal(0, 42, 1, 2)), parse(b"(42)"));
}

#[test]
fn unclosed_parenthesis_gives_nothing() {
    assert_eq!(None, parse(b"(1"));
}

#[test]
fn a_sum_stops_before_the_plus() {
    assert_eq!(Some(literal(0, 1, 0, 1)), parse(b"1 + 2"));
}

#[test]
fn literal_past_u128_gives_nothing() {
    assert_eq!(None, parse(b"340282366920938463463374607431768211456"));
}
