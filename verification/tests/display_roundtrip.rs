use llmlang::compiler::ast::display::PrettyExpr;
use llmlang::compiler::ast::Expr;
use llmlang::compiler::lexer::{Lexer, Token};
use llmlang::compiler::parser::Parser;

fn parse(src: &str, filename: &str) -> Vec<Expr> {
    let lexer = Lexer::new(src);
    assert!(lexer.is_sound(), "unsound source:\n{}", src);
    let mut parser = Parser::new(lexer, filename.to_string()).expect("lexer init");
    parser
        .parse_module()
        .unwrap_or_else(|e| panic!("parse failed: {:?}\nsource:\n{}", e, src))
}

fn print_module(exprs: &[Expr]) -> String {
    exprs
        .iter()
        .map(|e| PrettyExpr::new(e, 0).render())
        .collect::<Vec<_>>()
        .join("\n")
}

fn assert_roundtrip(src: &str) {
    assert_roundtrip_named(src, "roundtrip.llm");
}

fn assert_roundtrip_named(src: &str, filename: &str) {
    let first = parse(src, filename);
    let printed = print_module(&first);
    let second = parse(&printed, filename);
    assert_eq!(
        first, second,
        "AST changed across print/re-parse.\noriginal:\n{}\nprinted:\n{}",
        src, printed
    );
}

#[test]
fn roundtrip_debruijn_in_function_body() {
    assert_roundtrip(": add2 x y\n    + $ x $ y");
}

#[test]
fn roundtrip_comparison_and_bitwise_ops() {
    assert_roundtrip("= 1 2");
    assert_roundtrip("gt 2 1");
    assert_roundtrip("lt 1 2");
    assert_roundtrip("& 1 0");
    assert_roundtrip("| 1 0");
    assert_roundtrip("xor 1 0");
}

#[test]
fn roundtrip_panic_and_trap() {
    assert_roundtrip("! \"boom\"");
    assert_roundtrip("^ ! \"boom\" 0");
    assert_roundtrip("^ ^ ! \"deep\" 1 2");
}

#[test]
fn roundtrip_expand_param_and_reference() {
    assert_roundtrip(": variadic xs`\n    `xs");
}

#[test]
fn roundtrip_exported_define_and_shape() {
    assert_roundtrip("X : pub_fn x\n    $ x");
    assert_roundtrip("X # Point x y");
    assert_roundtrip("# Private a b");
}

#[test]
fn roundtrip_unpack_arg_order() {
    assert_roundtrip("ju \"{\\\"x\\\":[1]}\" \"Point\"");
}

#[test]
fn roundtrip_import_omits_arity() {
    assert_roundtrip("I json parse");
    assert_roundtrip("I http get");
}

#[test]
fn roundtrip_whole_floats_stay_floats() {
    assert_roundtrip("2.0");
    assert_roundtrip("3.5");
    assert_eq!(parse("2.0", "f.llm"), vec![Expr::Float("2.0".to_string())]);
    assert_eq!(
        parse(&print_module(&[Expr::Float("2.0".to_string())]), "f.llm"),
        vec![Expr::Float("2.0".to_string())]
    );
}

#[test]
fn roundtrip_string_escapes() {
    assert_roundtrip("\"quote:\\\" backslash:\\\\ newline:\\n tab:\\t backtick:`\"");
}

#[test]
fn roundtrip_core_constructs() {
    assert_roundtrip("L x 1\n+ $ x 1");
    assert_roundtrip("? = 1 1 10 20");
    assert_roundtrip("@2 f 1 2");
    assert_roundtrip(". ) 1 \"hi\" 0");
    assert_roundtrip("> 1");
    assert_roundtrip("~ 1");
    assert_roundtrip("M \"doc\" \"note\" : f x\n    $ x");
    assert_roundtrip("# P v\nL p N P 3\nS $ p v 0 9");
    assert_roundtrip("# P v\nL p N P 3\nG $ p v 0");
    assert_roundtrip("map x \"f\" g");
    assert_roundtrip("flt x g");
    assert_roundtrip("% + 1 2");
    assert_roundtrip("% str 5");
    assert_roundtrip("tn + tn 5");
    assert_roundtrip("sl \"abc\"");
    assert_roundtrip("sc \"a\" \"b\"");
    assert_roundtrip("ss \"abc\" 0 1");
    assert_roundtrip("sf \"abc\" \"b\"");
    assert_roundtrip("sr \"abc\" \"^a\"");
    assert_roundtrip("sp \"a,b\" \",\" 0");
    assert_roundtrip("str 42");
    assert_roundtrip("( 0");
    assert_roundtrip("env \"HOME\"");
    assert_roundtrip("jp 1");
    assert_roundtrip("tns");
    assert_roundtrip("tz");
    assert_roundtrip("tg tn 0");
    assert_roundtrip("ts 2026 7 17 0 0 0");
    assert_roundtrip("oe 1 2 3 4");
    assert_roundtrip("http \"GET\" \"http://x\" \"\"");
    assert_roundtrip("srv 0 8080");
    assert_roundtrip("hdr 1 \"Host\"");
    assert_roundtrip("fo \"f.txt\" \"r\"");
}

#[test]
fn pretty_printer_indents_nested_bodies() {
    let exprs = parse(": add2 x y\n    + $ x $ y", "indent.llm");
    let text = PrettyExpr::new(&exprs[0], 0).render();
    assert!(text.starts_with(": add2 x y\n"), "{}", text);
    assert!(text.contains("\n    "), "{}", text);
    assert_eq!(PrettyExpr::new(&exprs[0], 2).indent(), "        ");
}

#[test]
fn escape_string_escapes_quotes_and_controls() {
    assert_eq!(llmlang::compiler::ast::display::escape_string("a\"b\\c\nd\te"), "a\\\"b\\\\c\\nd\\te");
    assert_eq!(llmlang::compiler::ast::display::escape_string("plain"), "plain");
}

#[test]
fn printed_literals_lex_back() {
    let text = "quote \" slash \\ line \n tab \t";
    let printed = PrettyExpr::new(&Expr::String(text.to_string()), 0).render();
    let mut lexer = Lexer::new(&format!("{} 7", printed));
    assert_eq!(lexer.next_token().unwrap(), Token::String(text.to_string()));
    assert_eq!(lexer.next_token().unwrap(), Token::Integer(7));
    let printed = PrettyExpr::new(&Expr::Integer(9_223_372_036_854_775_807), 0).render();
    assert_eq!(printed, "9223372036854775807");
    let mut lexer = Lexer::new(&format!("{}\n\"x\"", printed));
    assert_eq!(lexer.next_token().unwrap(), Token::Integer(9_223_372_036_854_775_807));
    assert_eq!(lexer.next_token().unwrap(), Token::String("x".to_string()));
}

#[test]
fn printed_module_with_calls_bindings_and_definitions_reads_back() {
    let src = ": area w h\n    * $ w $ h\nX : main\n    L a @2 area 3 4\n    ? < $ a 10\n        sc \"small\" str $ a\n        ! \"big\"";
    let first = parse(src, "calls.llm");
    assert_eq!(first.len(), 2);
    let printed = print_module(&first);
    assert_eq!(parse(&printed, "calls.llm"), first);
    assert_eq!(print_module(&parse(&printed, "calls.llm")), printed);
}
