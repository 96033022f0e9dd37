use llmlang::compiler::ast::{Expr, Param};
use llmlang::compiler::codegen::symbol::{signature_path, CodeGen};
use llmlang::compiler::lexer::Lexer;
use llmlang::compiler::parser::Parser;
use llmlang::Config;

fn parse(src: &str) -> Vec<Expr> {
    let lexer = Lexer::new(src);
    assert!(lexer.is_sound());
    let mut parser = Parser::new(lexer, "t.llm".to_string()).unwrap();
    parser.parse_module().unwrap()
}

fn gen(module: &str) -> CodeGen {
    CodeGen::from_parts(module, Some(module.to_string()), 0xabc, Config::default(), 0, 8 * 1024 * 1024)
}

#[test]
fn construction_sets_names_and_limits() {
    let cg = CodeGen::from_parts("dir/geo.llm", Some("geo".to_string()), 255, Config::default(), 0, 65536);
    assert_eq!(cg.get_module_name(), "geo");
    assert_eq!(cg.mangle_prefix, "__llm_ff_");
    assert_eq!(cg.max_parallel_depth, 2);
    assert_eq!(cg.fn_returns_ptr.len(), 25);
    assert!(cg.fn_returns_ptr.iter().all(|(_, b)| *b));
    let tiny = CodeGen::from_parts("x", None, 0, Config::default(), 0, 100);
    assert_eq!(tiny.get_module_name(), "main");
    assert_eq!(tiny.mangle_prefix, "__llm_0_");
    assert_eq!(tiny.max_parallel_depth, 1);
    let real = CodeGen::new("some/path/prog.llm", Config::default(), 0, 0);
    assert_eq!(real.get_module_name(), "prog");
    assert!(real.mangle_prefix.starts_with("__llm_") && real.mangle_prefix.ends_with('_'));
}

#[test]
fn mangling_and_resolution() {
    let mut cg = gen("lib");
    assert_eq!(cg.mangle_name("main"), "main");
    assert_eq!(cg.mangle_name("f"), "__llm_abc_f");
    assert_eq!(cg.resolve_func_name("f"), "__llm_abc_f");
    cg.declare_function("lib_f".to_string(), 1);
    assert_eq!(cg.resolve_func_name("f"), "lib_f");
    cg.declare_function("g".to_string(), 0);
    assert_eq!(cg.resolve_func_name("g"), "g");
    let declared = cg.gen_import("math", "sin", 1);
    assert_eq!(declared, "math_sin");
    assert_eq!(cg.resolve_func_name("sin"), "math_sin");
    assert_eq!(cg.gen_import("main", "helper", 0), "helper");
    assert_eq!(cg.resolve_func_name("helper"), "helper");
    let top = gen("test");
    assert_eq!(top.resolve_func_name("f"), "__llm_abc_f");
}

#[test]
fn synth_ids_count_up_and_stack_check() {
    let mut cg = gen("m");
    assert_eq!(cg.next_synth_id(), 0);
    assert_eq!(cg.next_synth_id(), 1);
    assert!(cg.has_sufficient_stack(0));
    cg.stack_bottom = 1000;
    assert!(!cg.has_sufficient_stack(1000 + 262144));
    assert!(cg.has_sufficient_stack(1000 + 262145));
}

#[test]
fn pointer_inference_marks_string_parameters() {
    let exprs = parse(": shout s sc $ s \"!\"\n: twice x + $ x $ x\n: main @ shout \"hi\"");
    let mut cg = gen("test");
    cg.analyze_module_types(&exprs);
    assert_eq!(cg.param_ptr_flags("shout", 1), vec![true]);
    assert_eq!(cg.param_ptr_flags("twice", 1), vec![false]);
    assert_eq!(cg.param_ptr_flags("unknown", 2), vec![false, false]);
    let returns = |name: &str| cg.fn_returns_ptr.iter().find(|(n, _)| n == name).map(|(_, b)| *b);
    assert_eq!(returns("shout"), Some(true));
    assert_eq!(returns("twice"), Some(false));
    assert_eq!(returns("__llm_abc_shout"), Some(true));
}

#[test]
fn pointer_flags_flow_through_calls() {
    let exprs = parse(": inner s sl $ s\n: outer t @ inner $ t");
    let mut cg = gen("test");
    cg.analyze_module_types(&exprs);
    assert_eq!(cg.param_ptr_flags("inner", 1), vec![true]);
    assert_eq!(cg.param_ptr_flags("outer", 1), vec![true]);
}

#[test]
fn signature_lists_exported_items() {
    let mut cg = gen("lib");
    cg.gen_shape("Point", &vec!["x".to_string(), "y".to_string()], true);
    cg.gen_shape("Hidden", &vec!["a".to_string()], false);
    let body = Expr::DeBruijn(0);
    let params = vec![Param { name: "obj".to_string(), expand: false }];
    let (name, template) = cg.begin_function("add_x", params, &body, true).unwrap();
    assert_eq!(name, "lib_add_x");
    assert!(!template);
    cg.declare_function(name, 1);
    cg.declare_function("trap_0".to_string(), 0);
    assert!(cg.has_exports);
    assert_eq!(cg.emit_signature_file(), "# Point x y\n: add_x 1\n");
}

#[test]
fn templates_are_stored_and_signed() {
    let mut cg = gen("test");
    let params = vec![Param { name: "xs".to_string(), expand: true }];
    let body = Expr::Expand("xs".to_string());
    let (name, template) = cg.begin_function("variadic", params, &body, true).unwrap();
    assert_eq!(name, "variadic");
    assert!(template);
    assert_eq!(cg.templates.len(), 1);
    assert_eq!(cg.emit_signature_file(), ": variadic 1\n");
}

#[test]
fn function_bodies_are_checked_first() {
    let mut cg = CodeGen::from_parts("m.llm", Some("m".to_string()), 1, Config::default(), 0, 0);
    let params = vec![Param { name: "x".to_string(), expand: false }];
    let body = Expr::Sequence(
        Box::new(Expr::Move(Box::new(Expr::DeBruijn(0)))),
        Box::new(Expr::Move(Box::new(Expr::DeBruijn(0)))),
    );
    let err = cg.begin_function("f", params, &body, true).unwrap_err();
    assert_eq!(err.code, "E005");
    assert_eq!(err.filename, "m.llm");
    assert_eq!(err.line, 1);
    assert!(!cg.has_exports);
    let unknown = cg.begin_function("g", vec![], &Expr::Identifier("nope".to_string()), false).unwrap_err();
    assert_eq!(unknown.code, "E013: Unknown identifier nope");
    cg.declare_function("m_known".to_string(), 0);
    let ok = cg.begin_function("h", vec![], &Expr::Identifier("known".to_string()), false);
    assert_eq!(ok.unwrap().0, "__llm_1_h");
}

#[test]
fn soa_fields_resolve_to_one_based_slots() {
    let mut cg = gen("m");
    cg.gen_shape("P", &vec!["a".to_string(), "b".to_string()], false);
    cg.gen_shape("Q", &vec!["c".to_string()], false);
    let inst = Expr::New("P".to_string(), Box::new(Expr::Integer(1)));
    assert_eq!(cg.resolve_soa_field(&inst, "b", &[]), Some((2, "b".to_string())));
    assert_eq!(cg.resolve_soa_field(&inst, "c", &[]), None);
    let slot = Expr::DeBruijn(0);
    assert_eq!(cg.resolve_soa_field(&slot, "c", &[None]), Some((1, "c".to_string())));
    assert_eq!(cg.resolve_soa_field(&slot, "z", &[None]), None);
}

#[test]
fn signature_file_goes_beside_the_output() {
    assert_eq!(signature_path(Some("out/prog.o"), "prog.llm"), "out/prog.llmi");
    assert_eq!(signature_path(Some("out/prog"), "prog.llm"), "out/prog.llmi");
    assert_eq!(signature_path(None, "prog.llm"), "prog.llm.llmi");
}

#[test]
fn test_negative_import_missing_module() {
    let lexer = Lexer::new("I non_existent_module some_symbol");
    let mut parser = Parser::new(lexer, "test.llm".to_string()).unwrap();
    assert!(parser.parse_module().is_err());
}
