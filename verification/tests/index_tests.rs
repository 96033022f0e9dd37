use llmlang::compiler::ast::Expr;
use llmlang::compiler::lexer::Lexer;
use llmlang::compiler::parser::Parser;
use llmlang::index::{paths_match, replace_function_body, sort_texts, CodebaseIndex};

fn parse(src: &str, filename: &str) -> Vec<Expr> {
    let lexer = Lexer::new(src);
    assert!(lexer.is_sound());
    let mut parser = Parser::new(lexer, filename.to_string()).unwrap();
    parser.parse_module().unwrap()
}

fn index_source(index: &mut CodebaseIndex, path: &str, src: &str) -> usize {
    index.index_exprs(path, parse(src, path))
}

#[test]
fn reindexing_a_file_does_not_duplicate_entries() {
    let mut index = CodebaseIndex::new();
    let src = "# Point x y\n: main x y\n    + $ x $ y";
    for _ in 0..3 {
        index_source(&mut index, "a.llm", src);
    }
    assert_eq!(index.get_function("main").map(|m| m.len()), Some(1));
    assert_eq!(index.shape_count(), 1);
}

#[test]
fn reindexing_drops_renamed_and_deleted_symbols() {
    let mut index = CodebaseIndex::new();
    index_source(&mut index, "a.llm", ": old_name x\n    $ x\n: gone x\n    $ x");
    index_source(&mut index, "a.llm", ": new_name x\n    $ x");
    assert!(index.get_function("old_name").is_none());
    assert!(index.get_function("gone").is_none());
    assert!(index.get_function("new_name").is_some());
}

#[test]
fn purge_only_affects_the_reindexed_file() {
    let mut index = CodebaseIndex::new();
    index_source(&mut index, "a.llm", ": main\n    1");
    index_source(&mut index, "b.llm", ": main\n    2");
    index_source(&mut index, "a.llm", ": main\n    3");
    let paths: Vec<&str> = index.get_function("main").unwrap().iter().map(|m| m.path.as_str()).collect();
    assert_eq!(paths.len(), 2);
    assert!(paths.contains(&"a.llm") && paths.contains(&"b.llm"));
}

#[test]
fn resolve_function_disambiguates_by_path() {
    let mut index = CodebaseIndex::new();
    index_source(&mut index, "a.llm", ": main\n    1\n: only_here\n    1");
    index_source(&mut index, "b.llm", ": main\n    2");
    let none: Vec<(String, String)> = vec![];
    assert_eq!(index.resolve_function("only_here", None, &none).unwrap().path, "a.llm");
    let err = index.resolve_function("main", None, &none).unwrap_err();
    assert!(err.contains("multiple files") && err.contains("a.llm") && err.contains("b.llm"), "{}", err);
    assert_eq!(index.resolve_function("main", Some("b.llm"), &none).unwrap().path, "b.llm");
    assert!(index.resolve_function("main", Some("c.llm"), &none).is_err());
    assert!(index.resolve_function("missing", None, &none).is_err());
}

#[test]
fn resolution_errors_are_exact() {
    let mut index = CodebaseIndex::new();
    index_source(&mut index, "a.llm", ": main\n    1");
    index_source(&mut index, "b.llm", ": main\n    2");
    let none: Vec<(String, String)> = vec![];
    assert_eq!(
        index.resolve_function("main", None, &none).unwrap_err(),
        "Function 'main' is defined in multiple files: [\"a.llm\", \"b.llm\"]; pass 'path' to disambiguate"
    );
    assert_eq!(
        index.resolve_function("main", Some("c.llm"), &none).unwrap_err(),
        "Function 'main' is not defined in 'c.llm'; known locations: [\"a.llm\", \"b.llm\"]"
    );
    assert_eq!(index.resolve_function("missing", None, &none).unwrap_err(), "Function not found: missing");
}

#[test]
fn canonical_forms_make_paths_match() {
    let canonical = vec![
        ("./a.llm".to_string(), "/src/a.llm".to_string()),
        ("a.llm".to_string(), "/src/a.llm".to_string()),
    ];
    assert!(paths_match("x", "x", &vec![]));
    assert!(!paths_match("./a.llm", "a.llm", &vec![]));
    assert!(paths_match("./a.llm", "a.llm", &canonical));
    assert!(!paths_match("./a.llm", "b.llm", &canonical));
    let mut index = CodebaseIndex::new();
    index_source(&mut index, "a.llm", ": main\n    1");
    assert_eq!(index.resolve_function("main", Some("./a.llm"), &canonical).unwrap().path, "a.llm");
}

#[test]
fn index_records_calls_and_counts_definitions() {
    let mut index = CodebaseIndex::new();
    let n = index_source(&mut index, "a.llm", ": f x @ g $ x\n: g x $ x\n# Pair a");
    assert_eq!(n, 2);
    let f = &index.get_function("f").unwrap()[0];
    assert_eq!(f.calls, vec!["g".to_string()]);
    assert_eq!(f.line, 0);
    assert_eq!(f.fingerprint.len(), 64);
    let shape = index.get_shape("Pair").unwrap();
    assert_eq!(shape.0, vec!["a".to_string()]);
    assert_eq!(shape.1, "a.llm");
}

#[test]
fn search_callers_and_structure() {
    let mut index = CodebaseIndex::new();
    index_source(&mut index, "a.llm", ": zeta x @ target $ x\n: alpha x @ target $ x\n: target x + $ x 1\n# Targets t");
    index_source(&mut index, "b.llm", ": other x + $ x 1");
    assert_eq!(index.search_symbols("arg"), "Function: target\nShape: Targets");
    assert_eq!(index.search_symbols("nothing"), "");
    assert_eq!(index.find_callers("target"), vec!["alpha".to_string(), "zeta".to_string()]);
    assert!(index.find_callers("nobody").is_empty());
    assert_eq!(
        index.structural_search("target"),
        Some(vec!["other".to_string(), "target".to_string()])
    );
    assert_eq!(index.structural_search("absent"), None);
}

#[test]
fn sorting_orders_by_code_point() {
    let v = vec!["b".to_string(), "B".to_string(), "ab".to_string(), "a".to_string(), "b".to_string()];
    assert_eq!(
        sort_texts(v),
        vec!["B".to_string(), "a".to_string(), "ab".to_string(), "b".to_string(), "b".to_string()]
    );
}

#[test]
fn body_replacement_targets_the_first_definition() {
    let mut exprs = parse(": f x $ x\n: g 1\n: f y 2", "p.llm");
    assert!(replace_function_body(&mut exprs, "f", Expr::Integer(9)));
    match &exprs[0] {
        Expr::Define(n, p, b, _) => {
            assert_eq!(n, "f");
            assert_eq!(p.len(), 1);
            assert_eq!(**b, Expr::Integer(9));
        }
        _ => panic!("expected a definition"),
    }
    assert!(!replace_function_body(&mut exprs, "h", Expr::Integer(1)));
    assert_eq!(exprs.len(), 3);
}
