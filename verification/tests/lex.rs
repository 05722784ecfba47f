use oplang::lex::keyword;
use oplang::lex::token::{Token, TokenKind, TokenStream};
use oplang::lex::Lexer;
use oplang::span::Span;

#[test]
fn test_lex_arithmetic() {
    let mut lexer = Lexer::new(b"(1 + 2) * 3");
    let tokens = lexer.collect();
    assert_eq!(
        tokens,
        vec![
            Token::new(TokenKind::OpenParen, Span::new(0, 1), 0, 0),
            Token::new(TokenKind::IntegerLiteral, Span::new(1, 1), 0, 1),
            Token::new(TokenKind::Plus, Span::new(3, 1), 0, 3),
            Token::new(TokenKind::IntegerLiteral, Span::new(5, 1), 0, 5),
            Token::new(TokenKind::CloseParen, Span::new(6, 1), 0, 6),
            Token::new(TokenKind::Star, Span::new(8, 1), 0, 8),
            Token::new(TokenKind::IntegerLiteral, Span::new(10, 1), 0, 10),
        ]
    );
}

#[test]
fn test_lex_print_kw() {
    let mut lexer = Lexer::new(b"print 1");
    let tokens = lexer.collect();
    assert_eq!(
        tokens,
        vec![
            Token::new(TokenKind::Print, Span::new(0, 5), 0, 0),
            Token::new(TokenKind::IntegerLiteral, Span::new(6, 1), 0, 6)
        ]
    );
}

#[test]
fn lexer_reads_two_byte_operators_and_keywords() {
    let mut lexer = Lexer::new(b"a<=b && c!=d || e==f\nwhile x++ --");
    let kinds: Vec<TokenKind> = lexer.collect().iter().map(|t| t.kind).collect();
    assert_eq!(
        kinds,
        vec![
            TokenKind::Identifier,
            TokenKind::LessEq,
            TokenKind::Identifier,
            TokenKind::And,
            TokenKind::Identifier,
            TokenKind::BangEqual,
            TokenKind::Identifier,
            TokenKind::Or,
            TokenKind::Identifier,
            TokenKind::EqualEqual,
            TokenKind::Identifier,
            TokenKind::While,
            TokenKind::Identifier,
            TokenKind::PlusPlus,
            TokenKind::MinusMinus,
        ]
    );
}

#[test]
fn lexer_reports_line_and_column_after_newlines() {
    let mut lexer = Lexer::new(b"x\n  yy");
    let tokens = lexer.collect();
    assert_eq!(tokens[1], Token::new(TokenKind::Identifier, Span::new(4, 2), 1, 2));
    let mut eof = Lexer::new(b"  ");
    assert_eq!(eof.next_token(), Token::new(TokenKind::Eof, Span::new(2, 0), 0, 2));
}

#[test]
fn lexer_marks_stray_bytes_as_errors() {
    let mut lexer = Lexer::new(b"! & | @");
    let kinds: Vec<TokenKind> = lexer.collect().iter().map(|t| t.kind).collect();
    assert_eq!(
        kinds,
        vec![
            TokenKind::Error(b'!'),
            TokenKind::Error(b'&'),
            TokenKind::Error(b'|'),
            TokenKind::Error(b'@'),
        ]
    );
}

#[test]
fn keywords_are_recognised() {
    assert_eq!(keyword(b"continue"), TokenKind::Continue);
    assert_eq!(keyword(b"double"), TokenKind::Double);
    assert_eq!(keyword(b"prints"), TokenKind::Identifier);
}
