use llmlang::compiler::ast::Expr;
use llmlang::compiler::lexer::Lexer;
use llmlang::compiler::parser::Parser;
use llmlang::testing::{
    discover_tests, fingerprint_of, generate_harness_main, harness_exprs, parse_result_output, result_from_output,
    TestReport, TestResult,
};

fn parse(src: &str) -> Vec<Expr> {
    let lexer = Lexer::new(src);
    assert!(lexer.is_sound());
    let mut parser = Parser::new(lexer, "<test>".to_string()).unwrap();
    parser.parse_module().unwrap()
}

#[test]
fn discovers_tagged_tests_and_strips_them_from_production() {
    let exprs = parse(
        ": helper x + $ x 1\n\
         M \"test\" \"arith\" : test_add ? = + 2 3 5 0 ! \"broken\"\n\
         : main 0\n",
    );
    let (tests, production) = discover_tests(exprs).unwrap();
    assert_eq!(tests.len(), 1);
    assert_eq!(tests[0].name, "test_add");
    assert!(!tests[0].fingerprint.is_empty());
    assert_eq!(production.len(), 2);
}

#[test]
fn empty_suite_discovers_zero_tests() {
    let exprs = parse(": main 0\n");
    let (tests, production) = discover_tests(exprs).unwrap();
    assert!(tests.is_empty());
    assert_eq!(production.len(), 1);
}

#[test]
fn malformed_test_metadata_is_a_parse_error() {
    let lexer = Lexer::new("M \"test\" \"bad\" 42\n");
    let mut parser = Parser::new(lexer, "<test>".to_string()).unwrap();
    let err = parser.parse_module().unwrap_err();
    assert_eq!(err.code, "E019");
}

#[test]
fn test_with_parameters_is_rejected() {
    let exprs = parse("M \"test\" \"bad\" : test_param x $ x\n");
    let err = discover_tests(exprs).unwrap_err();
    assert!(err.contains("must take no parameters"));
    assert_eq!(err, "E019: test function 'test_param' must take no parameters");
}

#[test]
fn harness_main_parses_and_dispatches_all_tests() {
    let names = vec!["test_a".to_string(), "test_b".to_string()];
    let src = generate_harness_main(&names);
    let lexer = Lexer::new(&src);
    assert!(lexer.is_sound());
    let mut parser = Parser::new(lexer, "<harness>".to_string()).unwrap();
    let exprs = parser.parse_module().unwrap();
    assert_eq!(exprs.len(), 1);
    match &exprs[0] {
        Expr::Define(name, params, _, _) => {
            assert_eq!(name, "main");
            assert!(params.is_empty());
        }
        other => panic!("expected main define, got {:?}", other),
    }
}

#[test]
fn harness_main_text_is_exact_for_no_tests() {
    let src = generate_harness_main(&[]);
    assert_eq!(src, ": main\nL tname env \"LLM_TEST_NAME\"\n. ) 2 \"unknown test name\\n\" 1\n");
}

#[test]
fn harness_main_dispatches_by_anchored_name() {
    let src = generate_harness_main(&["t1".to_string()]);
    assert!(src.contains("? sr $ tname \"^t1$\"\n"));
    assert!(src.contains("L ok ^ . @0 t1 1 0\n"));
    assert!(src.contains("__LLMTEST__:"));
    assert!(src.contains("__LLMTEST_END__"));
}

#[test]
fn fingerprint_is_the_hex_sha256_of_the_structure() {
    let fp = fingerprint_of(&Expr::Integer(5));
    assert_eq!(fp, "de7d1b721a1e0632b7cf04edf5032c8ecffa9f9a08492152b926f1a5a7e765d7");
    assert_eq!(fp.len(), 64);
}

#[test]
fn tests_under_further_metadata_are_found() {
    let exprs = parse("M \"test\" \"x\" M \"doc\" \"y\" : inner_test 1\n");
    let (tests, production) = discover_tests(exprs).unwrap();
    assert_eq!(tests.len(), 1);
    assert_eq!(tests[0].name, "inner_test");
    assert!(production.is_empty());
}

#[test]
fn harness_module_drops_production_main_and_appends_tests() {
    let exprs = parse(": helper 1\nM \"test\" \"t\" : test_one 1\n: main 0\n");
    let (tests, production) = discover_tests(exprs).unwrap();
    let module = harness_exprs(&production, &tests);
    let names: Vec<String> = module
        .iter()
        .filter_map(|e| if let Expr::Define(n, _, _, _) = e { Some(n.clone()) } else { None })
        .collect();
    assert_eq!(names, vec!["helper".to_string(), "test_one".to_string()]);
}

#[test]
fn result_line_is_read_from_the_last_marker() {
    let out = "noise __LLMTEST__:0:5:old__LLMTEST_END__\nmore\n__LLMTEST__:1: 1234 :__LLMTEST_END__\n";
    assert_eq!(parse_result_output(out), Some((true, 1234, String::new())));
    let failed = "__LLMTEST__:0:-7:boom: bad__LLMTEST_END__";
    assert_eq!(parse_result_output(failed), Some((false, -7, "boom: bad".to_string())));
    assert_eq!(parse_result_output("__LLMTEST__:1:12"), None);
    assert_eq!(parse_result_output("__LLMTEST__:1:x:__LLMTEST_END__"), None);
    assert_eq!(parse_result_output("__LLMTEST__:1__LLMTEST_END__"), None);
    assert_eq!(parse_result_output("__LLMTEST__:1:99999999999999999999:__LLMTEST_END__"), None);
    assert_eq!(parse_result_output("nothing here"), None);
    assert_eq!(parse_result_output("__LLMTEST__:1:+3__LLMTEST_END__"), Some((true, 3, String::new())));
}

#[test]
fn outcome_keeps_panic_message_only_for_failures() {
    let exprs = parse("M \"test\" \"t\" : test_one 1\n");
    let (tests, _) = discover_tests(exprs).unwrap();
    let t = &tests[0];
    let failed = result_from_output(t, "__LLMTEST__:0:10:kaboom__LLMTEST_END__").unwrap();
    assert!(!failed.passed);
    assert_eq!(failed.duration_ns, 10);
    assert_eq!(failed.panic_message, Some("kaboom".to_string()));
    assert_eq!(failed.fingerprint, t.fingerprint);
    let passed = result_from_output(t, "__LLMTEST__:1:10:ignored__LLMTEST_END__").unwrap();
    assert!(passed.passed);
    assert_eq!(passed.panic_message, None);
    let silent = result_from_output(t, "__LLMTEST__:0:10:__LLMTEST_END__").unwrap();
    assert_eq!(silent.panic_message, None);
    assert!(result_from_output(t, "crashed").is_none());
}

#[test]
fn report_counts_what_it_records() {
    let mut report = TestReport { file: "f.llm".to_string(), total: 2, passed: 0, failed: 0, results: vec![] };
    assert!(report.success());
    let ok = TestResult {
        name: "a".to_string(),
        passed: true,
        duration_ns: 1,
        panic_message: None,
        fingerprint: "x".to_string(),
    };
    let bad = TestResult { name: "b".to_string(), passed: false, ..ok.clone() };
    report.record(ok);
    assert!(report.success());
    report.record(bad);
    assert_eq!(report.passed, 1);
    assert_eq!(report.failed, 1);
    assert_eq!(report.results.len(), 2);
    assert!(!report.success());
}
