use llmlang::compiler::analysis::prune_dead_code;
use llmlang::compiler::analysis::verify::{verify_expr, verify_module, VerificationContext};
use llmlang::compiler::ast::Expr;
use llmlang::compiler::lexer::Lexer;
use llmlang::compiler::parser::{Parser, SignatureResolver};

fn parser_for(input: &str, filename: &str) -> Parser {
    let lexer = Lexer::new(input);
    assert!(lexer.is_sound());
    Parser::new(lexer, filename.to_string()).expect("parser init")
}

fn parse_expr(input: &str) -> Expr {
    parser_for(input, "test.llm").parse_expr().expect("parse")
}

fn parse_module(input: &str) -> Vec<Expr> {
    parser_for(input, "test.llm").parse_module().expect("parse")
}

fn empty_context() -> VerificationContext {
    VerificationContext {
        shapes: vec![],
        functions: vec![],
        stack: vec![],
        stack_shapes: vec![],
        expand_map: vec![],
    }
}

fn define_names(exprs: &[Expr]) -> Vec<String> {
    exprs
        .iter()
        .filter_map(|e| if let Expr::Define(n, _, _, _) = e { Some(n.clone()) } else { None })
        .collect()
}

#[test]
fn test_analysis_dfe() {
    let input = ": used x + $ x 1\n: unused y * $ y 2\n: main @ used 10";
    let mut exprs = parse_module(input);
    exprs = prune_dead_code(exprs);
    let names = define_names(&exprs);
    assert!(names.contains(&"used".to_string()));
    assert!(names.contains(&"main".to_string()));
    assert!(!names.contains(&"unused".to_string()));
}

#[test]
fn dfe_keeps_transitive_callees_and_exports() {
    let input = ": leaf x $ x\n: mid x @ leaf $ x\n: main @ mid 1\n: dead x @ leaf $ x\nX : api x $ x\n# Hidden a\nX # Pub b";
    let exprs = prune_dead_code(parse_module(input));
    let names = define_names(&exprs);
    assert_eq!(names, vec!["leaf".to_string(), "mid".to_string(), "main".to_string(), "api".to_string()]);
    let shapes: Vec<String> = exprs
        .iter()
        .filter_map(|e| if let Expr::Shape(n, _, _) = e { Some(n.clone()) } else { None })
        .collect();
    assert_eq!(shapes, vec!["Pub".to_string()]);
}

#[test]
fn dfe_without_roots_removes_every_definition() {
    let exprs = prune_dead_code(parse_module(": a 1\n: b @ a 2"));
    assert!(define_names(&exprs).is_empty());
}

#[test]
fn test_verification_use_after_move() {
    let ast = parse_expr("L x 42 . > ^0 ^0");
    let mut ctx = empty_context();
    assert_eq!(verify_expr(&ast, &mut ctx), Err("E004".to_string()));
}

#[test]
fn test_verification_double_move() {
    let ast = parse_expr("L x 42 . > ^0 > ^0");
    let mut ctx = empty_context();
    assert_eq!(verify_expr(&ast, &mut ctx), Err("E005".to_string()));
}

#[test]
fn test_verification_if_stack_mismatch() {
    let ast = parse_expr("L x 42 ? 1 > ^0 ^0");
    let mut ctx = empty_context();
    assert_eq!(verify_expr(&ast, &mut ctx), Err("E009".to_string()));
}

#[test]
fn verification_accepts_borrow_then_move() {
    let ast = parse_expr("L x 42 . $ ^0 > ^0");
    let mut ctx = empty_context();
    assert_eq!(verify_expr(&ast, &mut ctx), Ok(()));
    assert!(ctx.stack.is_empty());
}

#[test]
fn verify_module_reports_first_failing_body_at_line_one() {
    let exprs = parse_module(": ok x $ x\n: bad x . > ^0 > ^0");
    let err = verify_module(&exprs, "m.llm").unwrap_err();
    assert_eq!(err.code, "E005");
    assert_eq!(err.filename, "m.llm");
    assert_eq!(err.line, 1);
    assert_eq!(err.message(), "E005 (m.llm:1)");
    assert!(verify_module(&parse_module(": ok x $ x"), "m.llm").is_ok());
}

#[test]
fn test_positive_fingerprint() {
    let ast1 = parser_for("X : f1 x + > ^0 1", "test1.llm").parse_expr().unwrap();
    let ast2 = parser_for("X : f2 y + > ^0 1", "test2.llm").parse_expr().unwrap();
    let ast3 = parser_for("X : f3 x * > ^0 2", "test3.llm").parse_expr().unwrap();
    let fp1 = ast1.structural_fingerprint();
    let fp2 = ast2.structural_fingerprint();
    let fp3 = ast3.structural_fingerprint();
    assert_eq!(fp1, fp2);
    assert_ne!(fp1, fp3);
}

#[test]
fn test_positive_fingerprint_arity() {
    let ast1 = parser_for(": f1 x @ g ^0", "test1.llm").parse_expr().unwrap();
    let ast2 = parser_for(": f2 x y @2 g ^1 ^0", "test2.llm").parse_expr().unwrap();
    let fp1 = ast1.structural_fingerprint();
    let fp2 = ast2.structural_fingerprint();
    assert_ne!(fp1, fp2);
    assert!(fp1.contains("@1"));
    assert!(fp2.contains("@2"));
}

#[test]
fn fingerprint_of_literals_is_exact() {
    assert_eq!(Expr::Integer(7).structural_fingerprint(), "i");
    assert_eq!(Expr::DeBruijn(12).structural_fingerprint(), "^12");
    assert_eq!(Expr::Move(Box::new(Expr::DeBruijn(0))).structural_fingerprint(), ">^0");
}

#[test]
fn test_positive_multi_arity_parsing() {
    let ast = parse_expr("@2 add2 1 2");
    if let Expr::Apply(func, args) = ast {
        if let Expr::Identifier(name) = *func {
            assert_eq!(name, "add2");
        } else {
            panic!("Expected identifier");
        }
        assert_eq!(args.len(), 2);
    } else {
        panic!("Expected Apply");
    }
}

struct MockResolver;

impl SignatureResolver for MockResolver {
    fn resolve(&self, module: &str, _import_paths: &[String], _filename: &str) -> Result<String, String> {
        if module == "math" {
            Ok(": sin 1\n# Point x y\n".to_string())
        } else {
            Err("E017".to_string())
        }
    }
}

#[test]
fn test_custom_signature_resolver() {
    let mut parser = parser_for("I math sin", "test.llm");
    parser.resolver = Box::new(MockResolver);
    let exprs = parser.parse_module().unwrap();
    assert_eq!(exprs.len(), 1);
    if let Expr::Import(module, symbol, arity) = &exprs[0] {
        assert_eq!(module, "math");
        assert_eq!(symbol, "sin");
        assert_eq!(*arity, 1);
    } else {
        panic!("Expected Expr::Import");
    }
}

#[test]
fn import_of_unknown_module_is_e017() {
    let err = parser_for("I nowhere thing", "test.llm").parse_module().unwrap_err();
    assert_eq!(err.code, "E017");
}

#[test]
fn calls_are_collected_in_order() {
    let ast = parse_expr(": f x . @ g $ x @ h 1");
    if let Expr::Define(_, _, body, _) = ast {
        assert_eq!(body.get_calls(), vec!["g".to_string(), "h".to_string()]);
    } else {
        panic!("expected a definition");
    }
}

#[test]
fn purity_and_complexity() {
    assert!(Expr::Integer(1).is_pure());
    assert!(parse_expr("+ 1 2").is_pure());
    assert!(!parse_expr("! \"boom\"").is_pure());
    assert_eq!(Expr::Integer(1).complexity(), 1);
    assert_eq!(parse_expr("+ 1 2").complexity(), 7);
    assert_eq!(parse_expr("! \"boom\"").complexity(), 11);
}

#[test]
fn returns_ptr_follows_strings_and_slots() {
    assert!(Expr::String("a".to_string()).returns_ptr());
    assert!(!Expr::Integer(1).returns_ptr());
    let let_str = parse_expr("L s \"x\" $ ^0");
    assert!(let_str.returns_ptr());
    let call = parse_expr("@ json_parse \"{}\"");
    assert!(call.returns_ptr());
    assert!(Expr::DeBruijn(0).returns_ptr_with_stack(&[true], &vec![]));
    assert!(!Expr::DeBruijn(0).returns_ptr_with_stack(&[false], &vec![]));
    let user = parse_expr("@ mine 1");
    assert!(user.returns_ptr_with_stack(&[], &vec![("mine".to_string(), true)]));
    assert!(!user.returns_ptr_with_stack(&[], &vec![("mine".to_string(), false)]));
}

struct RecordingResolver {
    asked: std::rc::Rc<std::cell::RefCell<Vec<(String, Vec<String>, String)>>>,
}

impl SignatureResolver for RecordingResolver {
    fn resolve(&self, module: &str, import_paths: &[String], filename: &str) -> Result<String, String> {
        self.asked.borrow_mut().push((module.to_string(), import_paths.to_vec(), filename.to_string()));
        Ok(": sin 1\n".to_string())
    }
}

#[test]
fn resolver_is_asked_for_the_module_with_paths_and_file() {
    let asked = std::rc::Rc::new(std::cell::RefCell::new(Vec::new()));
    let mut parser = parser_for("I math sin", "test.llm");
    parser.import_paths = vec!["lib".to_string()];
    parser.resolver = Box::new(RecordingResolver { asked: asked.clone() });
    let exprs = parser.parse_module().unwrap();
    assert_eq!(exprs, vec![Expr::Import("math".to_string(), "sin".to_string(), 1)]);
    assert_eq!(
        *asked.borrow(),
        vec![("math".to_string(), vec!["lib".to_string()], "test.llm".to_string())]
    );
}

#[test]
fn input_ending_inside_an_expression_is_e000() {
    let err = parser_for("+ 1", "t.llm").parse_expr().unwrap_err();
    assert_eq!(err.code, "E000");
    assert_eq!(err.filename, "t.llm");
    assert_eq!(err.line, 1);
}

#[test]
fn fingerprint_ignores_names_and_literal_values() {
    let a = parse_expr(": f a + ^0 1");
    let b = parse_expr(": g b + ^0 7");
    let c = parse_expr(": h c - ^0 7");
    assert_eq!(a.structural_fingerprint(), b.structural_fingerprint());
    assert_ne!(a.structural_fingerprint(), c.structural_fingerprint());
}
