use llmlang::compiler::error::CompileError;
use llmlang::compiler::lexer::{Lexer, Token};
use llmlang::compiler::parser::Parser;

#[test]
fn sound_sources_lex_without_faults() {
    assert!(Lexer::new("").is_sound());
    assert!(Lexer::new("+ 1 2.5 // comment\n\"s\"").is_sound());
    assert!(Lexer::new("% 922337203685477").is_sound());
}

#[test]
fn malformed_numbers_and_money_overflow_are_unsound() {
    assert!(!Lexer::new("1.2.3").is_sound());
    assert!(!Lexer::new("99999999999999999999").is_sound());
    assert!(!Lexer::new("% 922337203685478").is_sound());
    assert!(Lexer::new("922337203685478").is_sound());
}

#[test]
fn invalid_characters_are_reported_with_position() {
    let lexer = Lexer::new("\n\n  §");
    assert!(lexer.is_sound());
    let err = Parser::new(lexer, "bad.llm".to_string()).err().unwrap();
    assert_eq!(err.filename, "bad.llm");
    assert_eq!(err.line, 3);
    assert!(err.code.starts_with("E001: Invalid char '§'"), "{}", err.code);
}

#[test]
fn tokens_come_in_order() {
    let mut lexer = Lexer::new("@2 f ^1");
    assert_eq!(lexer.next_token().unwrap(), Token::Apply(2));
    assert!(matches!(lexer.next_token().unwrap(), Token::Identifier(ref s) if s == "f"));
    assert_eq!(lexer.next_token().unwrap(), Token::DeBruijn(1));
    assert_eq!(lexer.next_token().unwrap(), Token::EOF);
}

#[test]
fn compile_error_message_format() {
    let e = CompileError::new("E042", "x.llm", 7);
    assert_eq!(e.message(), "E042 (x.llm:7)");
}
