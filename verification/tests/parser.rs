use oplang::diagnostics::Diagnostic;
use oplang::lex::token::{Token, TokenKind};
use oplang::lex::Lexer;
use oplang::parse::ast::{BinOpKind, Expr, ExprKind, LitKind, NodeId, Program, Stmt, StmtKind, UnaryOpKind};
use oplang::parse::Parser;
use oplang::span::{Span, Spanned};

fn parse_source(source: &[u8]) -> (Program, Vec<Diagnostic>) {
    let mut diagnostics = Vec::<Diagnostic>::new();
    let program = {
        let lexer = Lexer::new(source);
        let mut parser = Parser::new(lexer, &mut diagnostics, source);
        parser.parse()
    };
    (program, diagnostics)
}

#[test]
fn test_nodeid_generation() {
    let source = b"(1 + 2) * 3";
    let mut diag = Vec::new();
    let mut parser = Parser::new(Lexer::new(source), &mut diag, source);
    parser.next_node_id();
    assert_eq!(NodeId(1), parser.next_node_id());
}

#[test]
fn test_peek() {
    let source = b"(";
    let mut diag = Vec::new();
    let parser = Parser::new(Lexer::new(source), &mut diag, source);
    assert_eq!(parser.peek(), Token::new(TokenKind::OpenParen, Span::new(0, 1), 0, 0));
}

#[test]
fn test_peek_at_eof() {
    let source = b"";
    let mut diag = Vec::new();
    let parser = Parser::new(Lexer::new(source), &mut diag, source);
    assert_eq!(parser.peek(), Token::new(TokenKind::Eof, Span::new(0, 0), 0, 0));
}

#[test]
fn test_advance_returns_correct_token() {
    let source = b"(1)";
    let mut diag = Vec::new();
    let mut parser = Parser::new(Lexer::new(source), &mut diag, source);
    assert_eq!(parser.advance(), Token::new(TokenKind::OpenParen, Span::new(0, 1), 0, 0));
}

#[test]
fn test_advance_at_eof() {
    let source = b"";
    let mut diag = Vec::new();
    let mut parser = Parser::new(Lexer::new(source), &mut diag, source);
    assert_eq!(parser.advance(), Token::new(TokenKind::Eof, Span::new(0, 0), 0, 0));
}

#[test]
fn test_parser_parse_arithmetic_expression() {
    let source = b"(1 + 2) * 3;";
    let (program, _diagnostics) = parse_source(source);

    let expr = match &program.body.get(0).unwrap().kind {
        StmtKind::ExprStmt(e) => e,
        _ => panic!(),
    };

    assert_eq!(
        *expr,
        Box::new(Expr {
            id: NodeId(4),
            span: Span::new(0, 11),
            kind: ExprKind::BinaryOp(
                Spanned { node: BinOpKind::Mul, span: Span::new(8, 1) },
                Box::new(Expr {
                    id: NodeId(2),
                    span: Span::new(0, 7),
                    kind: ExprKind::BinaryOp(
                        Spanned { node: BinOpKind::Add, span: Span::new(3, 1) },
                        Box::new(Expr { id: NodeId(0), span: Span::new(1, 1), kind: ExprKind::Literal(LitKind::Int(1)) }),
                        Box::new(Expr { id: NodeId(1), span: Span::new(5, 1), kind: ExprKind::Literal(LitKind::Int(2)) }),
                    ),
                }),
                Box::new(Expr { id: NodeId(3), span: Span::new(10, 1), kind: ExprKind::Literal(LitKind::Int(3)) }),
            ),
        })
    );
}

#[test]
fn test_parser_parse_print_stmt() {
    let source = b"print(1 + 3 * 3);";
    let (program, _diags) = parse_source(source);
    assert_eq!(
        program,
        Program {
            functions: vec![],
            body: vec![Stmt {
                id: NodeId(5),
                kind: StmtKind::Print(Box::new(Expr {
                    id: NodeId(4),
                    kind: ExprKind::BinaryOp(
                        Spanned::new(BinOpKind::Add, Span::new(8, 1)),
                        Box::new(Expr { id: NodeId(0), kind: ExprKind::Literal(LitKind::Int(1)), span: Span::new(6, 1) }),
                        Box::new(Expr {
                            id: NodeId(3),
                            kind: ExprKind::BinaryOp(
                                Spanned::new(BinOpKind::Mul, Span::new(12, 1)),
                                Box::new(Expr { id: NodeId(1), kind: ExprKind::Literal(LitKind::Int(3)), span: Span::new(10, 1) }),
                                Box::new(Expr { id: NodeId(2), kind: ExprKind::Literal(LitKind::Int(3)), span: Span::new(14, 1) }),
                            ),
                            span: Span::new(10, 5),
                        }),
                    ),
                    span: Span::new(6, 9),
                })),
                span: Span::new(0, 17),
            }],
        }
    );
}

#[test]
fn clean_source_gives_no_diagnostics() {
    let (program, diags) = parse_source(b"let x: int = 1; while (x < 10) { x = x + 1; if (x == 5) break; else continue; }");
    assert!(diags.is_empty());
    assert_eq!(program.body.len(), 2);
    match &program.body[1].kind {
        StmtKind::While(cond, _) => match &cond.kind {
            ExprKind::BinaryOp(op, _, _) => assert_eq!(op.node, BinOpKind::LessThan),
            _ => panic!("expected a comparison"),
        },
        _ => panic!("expected a while loop"),
    }
}

#[test]
fn an_error_node_comes_with_a_diagnostic() {
    let (program, diags) = parse_source(b"print 1; let ;");
    assert!(!diags.is_empty());
    assert!(program.body.iter().any(|s| s.kind == StmtKind::Error));
}

#[test]
fn unexpected_token_is_skipped_and_parsing_goes_on() {
    let (program, diags) = parse_source(b"); print(2);");
    assert_eq!(diags.len(), 2);
    assert_eq!(diags[0].message, "unexpected token");
    assert_eq!(program.body[0].kind, StmtKind::Error);
    assert!(matches!(program.body.last().unwrap().kind, StmtKind::Print(_)));
}

#[test]
fn node_ids_are_distinct_and_children_come_first() {
    let (program, _) = parse_source(b"(-x++) + --y;");
    match &program.body[0].kind {
        StmtKind::ExprStmt(e) => match &e.kind {
            ExprKind::BinaryOp(_, l, r) => {
                assert!(l.id.0 < r.id.0);
                assert!(r.id.0 < e.id.0);
                match &l.kind {
                    ExprKind::UnaryOp(op, inner) => {
                        assert_eq!(op.node, UnaryOpKind::Negate);
                        assert!(matches!(&inner.kind, ExprKind::UnaryOp(p, _) if p.node == UnaryOpKind::PostIncrement));
                    }
                    _ => panic!("expected a negation"),
                }
            }
            _ => panic!("expected a sum"),
        },
        _ => panic!("expected an expression statement"),
    }
    assert_eq!(program.body[0].id, NodeId(6));
}
