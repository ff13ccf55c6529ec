use qelc::code_gen::{code_gen, code_gen_node, Comptime};
use qelc::compiler::compile;
use qelc::parser::ASTNode;

fn out(src: &str) -> String {
    match compile(src) {
        Ok(c) => c.program,
        Err(e) => panic!("compile error: {e}"),
    }
}

fn lines(src: &str) -> Vec<String> {
    out(src).lines().map(|l| l.trim_end().to_string()).collect()
}

fn qal(q: &str) -> String {
    format!("QAL & 0 $ \"{q}\"")
}

#[test]
fn integer_literal_expands_to_bits() {
    assert_eq!(
        out("let x = 5;"),
        "QAL & 0 $ \"x_0\"\nQAL & 0 $ \"x_1\"\nQAL & 0 $ \"x_2\"\nSET $x_0 0 1\nSET $x_1 1 0\nSET $x_2 0 1\n"
    );
}

#[test]
fn identity_copy() {
    let l = lines("let a = 3; let b = a;");
    let expected = vec![
        qal("a_0"),
        qal("a_1"),
        "SET $a_0 0 1".to_string(),
        "SET $a_1 0 1".to_string(),
        qal("b_0"),
        qal("b_1"),
        "CPY $b_0 $TMP_0".to_string(),
        "CPY $b_1 $TMP_1".to_string(),
        "FRE & $ \"TMP_0\"".to_string(),
        "FRE & $ \"TMP_1\"".to_string(),
    ];
    assert_eq!(l, expected);
}

#[test]
fn range_unroll() {
    assert_eq!(lines("for (k in 0..3) { HAD $k; }"), vec!["HAD ??0", "HAD ??1", "HAD ??2"]);
}

#[test]
fn array_unroll_and_aliasing() {
    assert_eq!(
        lines("let q: qbit[2]; for (x in q) { PX x; }"),
        vec![qal("q_0"), qal("q_1"), "PX $q_0".to_string(), "PX $q_1".to_string()]
    );
}

#[test]
fn gate_with_two_operands() {
    let l = lines("let a: qbit; let b: qbit; CNT a, b;");
    assert_eq!(l, vec![qal("a"), qal("b"), "CNT $a $b".to_string()]);
}

#[test]
fn gate_line_ends_with_space_and_newline() {
    let o = out("let a: qbit; HAD a;");
    assert!(o.ends_with("HAD $a \n"));
}

#[test]
fn function_inlining() {
    let l = lines("qbit f() { let t = 1; return t; } let r = f();");
    assert_eq!(
        l,
        vec![
            qal("t_0"),
            "SET $t_0 0 1".to_string(),
            qal("TMP_0"),
            "CPY $TMP_0 $t_0".to_string(),
            qal("r_0"),
            "CPY $r_0 $TMP_0".to_string(),
            "FRE & $ \"TMP_0\"".to_string(),
        ]
    );
}

#[test]
fn parameters_are_aliased_to_arguments() {
    let l = lines("qbit f(p: qbit ) { HAD p; return p; } let a: qbit; let r = f(a);");
    assert_eq!(
        l,
        vec![
            qal("a"),
            "HAD $a".to_string(),
            qal("TMP_0"),
            "CPY $TMP_0 $a_0".to_string(),
            qal("r_0"),
            "CPY $r_0 $TMP_0".to_string(),
            "FRE & $ \"TMP_0\"".to_string(),
        ]
    );
}

#[test]
fn each_call_site_carries_the_whole_body() {
    let src = "qbit f() { let t = 1; HAD t[0]; return t; } let r = f(); let s = f();";
    let l = lines(src);
    assert_eq!(l.iter().filter(|x| x.as_str() == "HAD $t_0").count(), 2);
    assert_eq!(l.iter().filter(|x| x.starts_with("SET $t_0")).count(), 2);
    assert_eq!(l.len(), 2 * 8);
}

#[test]
fn array_declaration_lines_are_contiguous_and_first() {
    let l = lines("let q: qbit[4]; HAD q[3];");
    assert_eq!(l[..4].to_vec(), vec![qal("q_0"), qal("q_1"), qal("q_2"), qal("q_3")]);
    assert_eq!(l[4], "HAD $q_3");
}

#[test]
fn qubit_count_rule() {
    assert_eq!(lines("let a = 0;"), vec![qal("a_0"), "SET $a_0 1 0".to_string()]);
    assert_eq!(lines("let a = 1;"), vec![qal("a_0"), "SET $a_0 0 1".to_string()]);
    assert_eq!(
        lines("let a = 2;"),
        vec![qal("a_0"), qal("a_1"), "SET $a_0 1 0".to_string(), "SET $a_1 0 1".to_string()]
    );
    assert_eq!(lines("let a = 6;").len(), 6);
    assert_eq!(lines("let a = 9;").len(), 8);
}

#[test]
fn literal_bits_reconstruct_value() {
    for n in [0u32, 1, 2, 3, 5, 6, 7, 9, 100, 1000, 65535] {
        let l = lines(&format!("let v = {n};"));
        let sets: Vec<&String> = l.iter().filter(|x| x.starts_with("SET")).collect();
        let mut value = 0u64;
        for (j, s) in sets.iter().enumerate() {
            if s.ends_with("0 1") {
                value += 1 << j;
            }
        }
        assert_eq!(value, n as u64, "{n}");
    }
}

#[test]
fn power_of_two_loses_its_top_bit() {
    let l = lines("let v = 4;");
    assert_eq!(l, vec![qal("v_0"), qal("v_1"), "SET $v_0 1 0".to_string(), "SET $v_1 1 0".to_string()]);
}

#[test]
fn range_loop_renders_body_per_value() {
    let l = lines("let q: qbit[8]; for (k in 2..5) { HAD q[k]; PX $k; }");
    assert_eq!(
        l[8..].to_vec(),
        vec!["HAD $q_2", "PX ??2", "HAD $q_3", "PX ??3", "HAD $q_4", "PX ??4"]
    );
}

#[test]
fn empty_range_emits_nothing() {
    assert_eq!(out("for (k in 3..1) { HAD $k; }"), "");
}

#[test]
fn array_loop_renders_body_per_element() {
    let l = lines("let q: qbit[3]; for (x in q) { HAD x; PX x; }");
    assert_eq!(
        l[3..].to_vec(),
        vec!["HAD $q_0", "PX $q_0", "HAD $q_1", "PX $q_1", "HAD $q_2", "PX $q_2"]
    );
}

#[test]
fn qubit_counter_grows_with_allocations() {
    let c = compile("let a = 5; let q: qbit[4]; for (x in q) { HAD x; }").unwrap();
    assert_eq!(c.i, 3 + 4 + 1);
    let c0 = compile("").unwrap();
    assert_eq!(c0.i, 0);
}

#[test]
fn assignment_from_variable_copies_each_qubit() {
    let l = lines("let a: qbit[2]; let b: qbit[2]; a = b;");
    assert_eq!(l[4..].to_vec(), vec!["CPY $a_0 $b_0", "CPY $a_1 $b_1"]);
}

#[test]
fn assignment_of_literal_to_single_qubit() {
    let l = lines("let a: qbit; a = 1;");
    assert_eq!(l[1], "SET $a 0 1");
}

#[test]
fn assignment_of_literal_to_family() {
    let l = lines("let a: qbit[2]; a = 3;");
    assert_eq!(l[2..].to_vec(), vec!["SET $a_0 0 1", "SET $a_1 0 1"]);
}

#[test]
fn extern_declaration_is_recorded() {
    let c = compile("qbit f() { }").unwrap();
    assert_eq!(c.program, "");
    assert_eq!(c.functions.entries.len(), 1);
    assert_eq!(c.function_args.entries.len(), 1);
}

#[test]
fn unknown_variable_is_an_error() {
    let assign = ASTNode::Assignment {
        lval: Box::new(ASTNode::VariableCall { name: "b".to_string() }),
        value: Box::new(ASTNode::VariableCall { name: "a".to_string() }),
    };
    let mut c = Comptime::new();
    assert!(code_gen_node(&assign, &mut c, 4).is_err());
}

#[test]
fn unknown_function_body_is_an_error() {
    assert!(compile("qbit f() { } let r = f();").is_err());
}

#[test]
fn unbound_loop_variable_is_an_error() {
    let gate = ASTNode::GateCall {
        name: "HAD".to_string(),
        args: vec![ASTNode::ExternArg { idx: Box::new(ASTNode::IntCall { name: "k".to_string() }) }],
    };
    let mut c = Comptime::new();
    assert!(code_gen_node(&gate, &mut c, 4).is_err());
}

#[test]
fn malformed_operand_drops_the_line() {
    let gate = ASTNode::GateCall { name: "HAD".to_string(), args: vec![ASTNode::Void] };
    let mut c = Comptime::new();
    assert!(code_gen_node(&gate, &mut c, 4).is_ok());
    assert_eq!(c.program, "");
}

#[test]
fn negative_literal_is_out_of_range() {
    let decl = ASTNode::VariableDecl {
        name: "x".to_string(),
        value: Some(Box::new(ASTNode::Num(-1))),
        type_: None,
        token: 16,
    };
    let mut c = Comptime::new();
    assert!(code_gen_node(&decl, &mut c, 4).is_err());
}

#[test]
fn declaration_without_type_or_value_is_an_error() {
    assert!(compile("let x;").is_err());
}

#[test]
fn unsupported_statement_is_an_error() {
    assert!(compile("let a: qbit; a;").is_err());
}

#[test]
fn recursion_is_cut_off() {
    assert!(compile("qbit f() { let t = f(); return t; } let r = f();").is_err());
}

#[test]
fn code_gen_needs_a_program() {
    assert!(code_gen(ASTNode::Num(3)).is_err());
    assert!(code_gen(ASTNode::Program(vec![])).is_ok());
}

#[test]
fn const_declaration_is_recorded_as_const() {
    let c = compile("const a: qbit[2];").unwrap();
    let info = &c.var_info.entries[0].1;
    assert!(info.0);
    assert_eq!(info.1, 2);
}

#[test]
fn parse_errors_surface_from_compile() {
    assert!(compile("let = 3;").is_err());
}

#[test]
fn regions_are_recorded_by_their_start() {
    let c = compile("let q: qbit[2]; let x = 5;").unwrap();
    assert_eq!(c.vars.entries[0], ("q".to_string(), (0, 0)));
    assert_eq!(c.vars.entries[1], ("x".to_string(), (2, 0)));
    assert_eq!(c.i, 5);
    assert_eq!(c.var_info.entries[1].1 .1, 3);
}

#[test]
fn missing_variable_is_named_in_the_message() {
    let assign = ASTNode::Assignment {
        lval: Box::new(ASTNode::VariableCall { name: "b".to_string() }),
        value: Box::new(ASTNode::VariableCall { name: "ghost_var".to_string() }),
    };
    let mut c = Comptime::new();
    let e = code_gen_node(&assign, &mut c, 4).unwrap_err();
    assert!(e.starts_with("BACKEND_ERROR: "), "{e}");
    assert!(e.ends_with("ghost_var"), "{e}");
}

#[test]
fn missing_function_is_named_in_the_message() {
    let decl = ASTNode::VariableDecl {
        name: "r".to_string(),
        value: Some(Box::new(ASTNode::FunctionCall { name: "nowhere".to_string(), args: vec![] })),
        type_: None,
        token: 16,
    };
    let mut c = Comptime::new();
    let e = code_gen_node(&decl, &mut c, 4).unwrap_err();
    assert!(e.starts_with("BACKEND_ERROR: ") && e.ends_with("nowhere"), "{e}");
}

#[test]
fn missing_loop_variable_is_named_in_the_message() {
    let gate = ASTNode::GateCall {
        name: "HAD".to_string(),
        args: vec![ASTNode::ExternArg { idx: Box::new(ASTNode::IntCall { name: "kk".to_string() }) }],
    };
    let mut c = Comptime::new();
    let e = code_gen_node(&gate, &mut c, 4).unwrap_err();
    assert!(e.starts_with("BACKEND_ERROR: ") && e.ends_with("kk"), "{e}");
}

#[test]
fn non_program_gives_an_ast_error() {
    let e = code_gen(ASTNode::Num(1)).err().unwrap();
    assert!(e.starts_with("AST_ERROR"), "{e}");
}

#[test]
fn early_errors_leave_the_environment_unchanged() {
    let mut c = compile("let a = 5;").unwrap();
    let program = c.program.clone();
    let i = c.i;
    assert!(code_gen_node(&ASTNode::Num(1), &mut c, 4).is_err());
    let bad_for = ASTNode::For {
        container: Box::new(ASTNode::VariableCall { name: "nothing".to_string() }),
        alias: "x".to_string(),
        body: None,
    };
    assert!(code_gen_node(&bad_for, &mut c, 4).is_err());
    let untyped = ASTNode::VariableDecl { name: "z".to_string(), value: None, type_: None, token: 16 };
    assert!(code_gen_node(&untyped, &mut c, 4).is_err());
    assert_eq!(c.program, program);
    assert_eq!(c.i, i);
    assert_eq!(c.vars.entries.len(), 1);
}
