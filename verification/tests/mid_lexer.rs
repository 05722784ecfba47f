use oplang::lexer::lexer::Lexer;
use oplang::lexer::token::{Token, TokenKind, TokenStream};
use oplang::span::Span;

fn new_lexer() -> Lexer<'static> {
    Lexer::new(b"(1 + 2) * 3")
}

#[test]
fn test_peek_return_none_on_eof() {
    let lexer = Lexer::new(b"");
    assert_eq!(None, lexer.peek());
}

#[test]
fn test_peek_return_some_with_correct_value() {
    let lexer = new_lexer();
    assert_eq!(Some(b'('), lexer.peek());
}

#[test]
fn test_token_creation() {
    let mut lexer = new_lexer();
    lexer.advance();
    let tok = lexer.create_token(TokenKind::OpenParen);
    assert_eq!(
        tok,
        Token::new(
            TokenKind::OpenParen,
            Span::new(lexer.start, lexer.current - lexer.start),
            lexer.line,
            lexer.start_column
        )
    );
}

#[test]
fn test_newline_handling() {
    let mut lexer = Lexer::new(b"(\n)");
    lexer.advance();
    lexer.advance();
    assert_eq!(1, lexer.line);
}

#[test]
fn test_column_tracking() {
    let mut lexer = new_lexer();
    lexer.advance();
    assert_eq!(1, lexer.column);
}

#[test]
fn test_column_tracking_with_newline() {
    let mut lexer = Lexer::new(b"(\n");
    lexer.advance();
    lexer.advance();
    assert_eq!(0, lexer.column);
}

#[test]
fn test_whitespace_skipping() {
    let mut lexer = Lexer::new(b"1  +2");
    lexer.next();
    let tok = lexer.next();
    assert_eq!(tok.span.start(), 3);
}

#[test]
fn test_print_kw_detection() {
    let lexer = Lexer::default();
    assert_eq!(lexer.get_identifier_type(b"print"), TokenKind::Print);
}

#[test]
fn mid_lexer_reads_an_expression() {
    let mut lexer = Lexer::new(b"12 * (3 - 4)");
    let kinds: Vec<TokenKind> = lexer.collect().iter().map(|t| t.kind).collect();
    assert_eq!(
        kinds,
        vec![
            TokenKind::IntegerLiteral,
            TokenKind::Star,
            TokenKind::OpenParen,
            TokenKind::IntegerLiteral,
            TokenKind::Minus,
            TokenKind::IntegerLiteral,
            TokenKind::CloseParen,
        ]
    );
    let mut at_end = Lexer::new(b"7");
    at_end.next();
    assert_eq!(at_end.next().kind, TokenKind::Eof);
}

#[test]
fn advance_moves_past_a_newline() {
    let mut lexer = Lexer::new(b"\n)");
    assert_eq!(Some(b'\n'), lexer.advance());
    assert_eq!(Some(b')'), lexer.peek());
    assert_eq!(1, lexer.line);
    assert_eq!(0, lexer.column);
}

#[test]
fn tokens_after_a_newline_are_read() {
    let mut lexer = Lexer::new(b"1\n+ 2");
    let kinds: Vec<TokenKind> = lexer.collect().iter().map(|t| t.kind).collect();
    assert_eq!(kinds.len(), 3);
    assert_eq!(kinds[1], TokenKind::Plus);
}

#[test]
fn unknown_byte_gives_an_error_token_in_place() {
    let mut lexer = Lexer::new(b" @1");
    let t = lexer.next_token();
    assert_eq!(TokenKind::Error(b'@'), t.kind);
    assert_eq!(Span::new(1, 0), t.span);
    assert_eq!(1, lexer.current);
}

#[test]
fn first_token_is_read_before_an_unknown_word() {
    let mut lexer = Lexer::new(b"12 foo");
    let t = lexer.next_token();
    assert_eq!(TokenKind::IntegerLiteral, t.kind);
    assert_eq!(Span::new(0, 2), t.span);
}
