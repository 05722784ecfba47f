use oplang::analysis::ids::LocalVarId;
use oplang::bytecode::opcodes::Opcode;
use oplang::diagnostics::{Diagnostic, DiagnosticEmitter, DiagnosticFormatter, Severity};
use oplang::lex::token::{Token, TokenKind};
use oplang::parse::ast::{BinOpKind, UnaryOpKind};
use oplang::options::Options;
use oplang::span::Span;
use oplang::text::{check_literals_fit, parse_u128_text};

#[test]
fn decimal_text_is_read_with_an_optional_plus() {
    assert_eq!(Some(12), parse_u128_text(b"+12"));
    assert_eq!(Some(u128::MAX), parse_u128_text(b"340282366920938463463374607431768211455"));
    assert_eq!(None, parse_u128_text(b"340282366920938463463374607431768211456"));
    assert_eq!(None, parse_u128_text(b""));
    assert_eq!(None, parse_u128_text(b"+"));
    assert_eq!(None, parse_u128_text(b"12a"));
    assert_eq!(None, parse_u128_text(b"-1"));
}

#[test]
fn default_options_have_no_input() {
    let o = Options::new();
    assert_eq!("", o.input);
    assert!(!o.dump_bytecode);
    let d: Options = Default::default();
    assert!(!d.dump_bytecode);
}

#[test]
fn first_instruction_set_bytes() {
    assert_eq!(0, Opcode::Halt.to_byte());
    assert_eq!(5, Opcode::Loadconst.to_byte());
    assert_eq!(6, Opcode::Iprint.to_byte());
}

#[test]
fn local_ids_come_from_integers() {
    assert_eq!(LocalVarId(4), LocalVarId::from(4));
    assert_eq!(usize::MAX, LocalVarId::error().0);
}

#[test]
fn formatter_lays_out_a_report() {
    let source = b"let x = 1;\nprint y;";
    let d = Diagnostic::new(String::from("oops"), Span::new(17, 1), Severity::Error);
    let expected = String::from("\x1b[1m\x1b[91merror: \x1b[39m\x1b[0m \x1b[1moops\x1b[0m \n")
        + "  \x1b[1m\x1b[94m-->\x1b[39m\x1b[0m placeholderpath.op:2:7\n"
        + "  |\n"
        + "2 | print y;\n"
        + "  |       \x1b[1m\x1b[32m^\x1b[39m\x1b[0m";
    assert_eq!(expected, DiagnosticFormatter::new(source).format(&d));
    assert_eq!((2, 7), DiagnosticFormatter::new(source).get_line_col(&Span::new(17, 1)));
    assert_eq!(b"print y;", DiagnosticFormatter::new(source).get_line(&Span::new(17, 1)));
}

#[test]
fn emitter_label_has_no_trailing_space() {
    let source = b"1";
    let d = Diagnostic::new(String::from("m"), Span::new(0, 0), Severity::Error);
    let s = DiagnosticEmitter::new(source).emit(&d);
    assert!(s.starts_with("\x1b[1m\x1b[91merror:\x1b[39m\x1b[0m \x1b[1mm\x1b[0m \n"));
    assert!(s.ends_with("1 | 1\n  | \x1b[1m\x1b[32m^\x1b[39m\x1b[0m"));
}

#[test]
fn literal_fit_is_checked_per_literal() {
    assert!(check_literals_fit(b"print(340282366920938463463374607431768211455);"));
    assert!(!check_literals_fit(b"print(340282366920938463463374607431768211456);"));
    assert!(check_literals_fit(b"x340282366920938463463374607431768211456"));
    assert!(check_literals_fit(b""));
}

#[test]
fn operators_from_tokens_and_their_symbols() {
    use_operators();
}

fn use_operators() {
    let plus = Token::new(TokenKind::Plus, Span::new(0, 1), 0, 0);
    assert_eq!(BinOpKind::Add, BinOpKind::from_token(plus));
    let or = Token::new(TokenKind::Or, Span::new(0, 2), 0, 0);
    assert_eq!(BinOpKind::Or, BinOpKind::from_token(or));
    assert_eq!("<=", BinOpKind::LessEq.symbol());
    assert_eq!("!", UnaryOpKind::Negate.symbol());
    assert_eq!("++", UnaryOpKind::PostIncrement.symbol());
}
