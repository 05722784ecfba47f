use oplang::lex::lexer::{Lexer, Token, TokenType};

fn all_tokens(input: &str) -> Vec<Token> {
    let mut lexer = Lexer::new(input.as_bytes());
    let mut tokens = Vec::new();
    while let Some(t) = lexer.next() {
        tokens.push(t);
    }
    tokens
}

fn lex(input: &str) -> Vec<TokenType> {
    all_tokens(input).iter().map(|t| t.kind).collect()
}

#[test]
fn basic_expression() {
    let tokens = lex("1 + 2 * 3");
    assert_eq!(
        tokens,
        vec![
            TokenType::IntegerLiteral,
            TokenType::Plus,
            TokenType::IntegerLiteral,
            TokenType::Star,
            TokenType::IntegerLiteral,
        ]
    );
}

#[test]
fn parentheses_expression() {
    let tokens = lex("(10 + 20) / 5");
    assert_eq!(
        tokens,
        vec![
            TokenType::OpenParen,
            TokenType::IntegerLiteral,
            TokenType::Plus,
            TokenType::IntegerLiteral,
            TokenType::CloseParen,
            TokenType::Slash,
            TokenType::IntegerLiteral,
        ]
    );
}

#[test]
fn whitespace_and_newlines() {
    let tokens = lex("  12\n+ 34 ");
    assert_eq!(
        tokens,
        vec![TokenType::IntegerLiteral, TokenType::Plus, TokenType::IntegerLiteral]
    );
}

#[test]
fn keyword_print() {
    let tokens = lex("print");
    assert_eq!(tokens, vec![TokenType::Print]);
}

#[test]
fn unknown_char_becomes_error() {
    let tokens: Vec<Token> = all_tokens("@");
    match &tokens[0].kind {
        TokenType::Error(c) => assert_eq!(*c, b'@'),
        _ => panic!("expected error token"),
    }
}

#[test]
fn old_lexer_tracks_lines_and_spans() {
    let tokens = all_tokens("1\n  22");
    assert_eq!(tokens.len(), 2);
    assert_eq!(tokens[1].line, 1);
    assert_eq!(tokens[1].span.offset(), 4);
    assert_eq!(tokens[1].span.len(), 2);
}
