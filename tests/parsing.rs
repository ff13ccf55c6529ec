use qelc::parser::{from_tokens, parse_, ASTNode, Tok};
use qelc::tokenizer::{filter50s, filter_all, tokenize};

fn parse_src(src: &str) -> Result<ASTNode, String> {
    let ts = filter_all(filter50s(tokenize(src)));
    let kinds = from_tokens(ts.clone());
    parse_(kinds, ts)
}

fn statements(src: &str) -> Vec<ASTNode> {
    match parse_src(src) {
        Ok(ASTNode::Program(v)) => v,
        other => panic!("not a program: {other:?}"),
    }
}

#[test]
fn kinds_map_to_parser_tokens() {
    let ts = filter_all(filter50s(tokenize("let x = 5; HAD x;")));
    let ks = from_tokens(ts);
    assert_eq!(
        ks,
        vec![Tok::VarDecl, Tok::New, Tok::Equal, Tok::Num, Tok::Semicolon, Tok::GateCall, Tok::Old, Tok::Semicolon]
    );
}

#[test]
fn stray_punctuation_maps_to_punct() {
    let ts = tokenize("x=1;");
    let ks = from_tokens(ts);
    assert_eq!(ks[1], Tok::Punct);
}

#[test]
fn unknown_kinds_map_to_unknown() {
    let ts = tokenize("a */;");
    let ks = from_tokens(ts);
    assert_eq!(ks[1], Tok::Unknown);
}

#[test]
fn literal_declaration() {
    let v = statements("let x = 5;");
    assert_eq!(v.len(), 1);
    match &v[0] {
        ASTNode::VariableDecl { name, value: Some(val), type_: None, token } => {
            assert_eq!(name, "x");
            assert_eq!(*token, 16);
            assert!(matches!(**val, ASTNode::Num(5)));
        }
        other => panic!("{other:?}"),
    }
}

#[test]
fn typed_array_declaration() {
    let v = statements("const q: qbit[2];");
    match &v[0] {
        ASTNode::VariableDecl { name, value: None, type_: Some(t), token } => {
            assert_eq!(name, "q");
            assert_eq!(*token, 17);
            match &**t {
                ASTNode::ArrayType { type_, size } => {
                    assert!(matches!(**type_, ASTNode::Qbit));
                    assert!(matches!(**size, ASTNode::Num(2)));
                }
                other => panic!("{other:?}"),
            }
        }
        other => panic!("{other:?}"),
    }
}

#[test]
fn range_loop_with_gate() {
    let v = statements("for (k in 0..3) { HAD $k; }");
    match &v[0] {
        ASTNode::For { container, alias, body: Some(b) } => {
            assert_eq!(alias, "k");
            assert!(matches!(&**container, ASTNode::Range { .. }));
            match &**b {
                ASTNode::Block(stmts) => match &stmts[0] {
                    ASTNode::GateCall { name, args } => {
                        assert_eq!(name, "HAD");
                        assert!(matches!(&args[0], ASTNode::ExternArg { .. }));
                    }
                    other => panic!("{other:?}"),
                },
                other => panic!("{other:?}"),
            }
        }
        other => panic!("{other:?}"),
    }
}

#[test]
fn gate_with_parentheses() {
    let v = statements("let a: qbit; let b: qbit; CNT(a, b);");
    match &v[2] {
        ASTNode::GateCall { name, args } => {
            assert_eq!(name, "CNT");
            assert_eq!(args.len(), 2);
        }
        other => panic!("{other:?}"),
    }
}

#[test]
fn function_definition_and_call() {
    let v = statements("qbit f(a: qbit ) { return a; } let r0: qbit; let r = f(r0);");
    match &v[0] {
        ASTNode::FunctionDef { name, ret_type, in_type, body } => {
            assert_eq!(name, "f");
            assert!(matches!(**ret_type, ASTNode::Qbit));
            assert_eq!(in_type.len(), 1);
            assert!(body.is_some());
        }
        other => panic!("{other:?}"),
    }
    match &v[2] {
        ASTNode::VariableDecl { value: Some(val), .. } => match &**val {
            ASTNode::FunctionCall { name, args } => {
                assert_eq!(name, "f");
                assert_eq!(args.len(), 1);
            }
            other => panic!("{other:?}"),
        },
        other => panic!("{other:?}"),
    }
}

#[test]
fn array_access_and_assignment() {
    let v = statements("let q: qbit[2]; q[1] = 1;");
    match &v[1] {
        ASTNode::Assignment { lval, value } => {
            assert!(matches!(&**lval, ASTNode::ArrayAccess { .. }));
            assert!(matches!(**value, ASTNode::Num(1)));
        }
        other => panic!("{other:?}"),
    }
}

#[test]
fn struct_definition() {
    let v = statements("struct Pair { let a: qbit; let b: qbit[2]; }");
    match &v[0] {
        ASTNode::Struct { name, types } => {
            assert_eq!(name, "Pair");
            assert_eq!(types.len(), 2);
        }
        other => panic!("{other:?}"),
    }
}

#[test]
fn pointer_type() {
    let v = statements("let p: *qbit;");
    match &v[0] {
        ASTNode::VariableDecl { type_: Some(t), .. } => {
            assert!(matches!(&**t, ASTNode::PointerType { .. }));
        }
        other => panic!("{other:?}"),
    }
}

#[test]
fn reused_name_is_rejected() {
    assert!(parse_src("let x = 1; let x = 2;").is_err());
}

#[test]
fn missing_name_after_let_is_rejected() {
    assert!(parse_src("let = 1;").is_err());
}

#[test]
fn unfinished_loop_is_rejected() {
    assert!(parse_src("for (k in 0..3) { HAD $k;").is_err());
}

#[test]
fn missing_value_is_rejected() {
    assert!(parse_src("let x = ;").is_err());
}

#[test]
fn stray_token_at_top_level_is_rejected() {
    assert!(parse_src("let x = 1; }").is_err());
}

#[test]
fn empty_source_is_an_empty_program() {
    assert!(matches!(parse_src(""), Ok(ASTNode::Program(v)) if v.is_empty()));
}

#[test]
fn shorter_stream_decides_the_length() {
    let ts = filter_all(filter50s(tokenize("let x = 5; let y = 6;")));
    let kinds = from_tokens(ts.clone());
    let short = kinds[..5].to_vec();
    match parse_(short, ts) {
        Ok(ASTNode::Program(v)) => assert_eq!(v.len(), 1),
        other => panic!("{other:?}"),
    }
}

#[test]
fn member_access_after_a_spaced_dot() {
    let v = statements("let q: qbit[2]; q. m;");
    match &v[1] {
        ASTNode::StructAccess { structure, member } => {
            assert_eq!(member, "m");
            assert!(matches!(&**structure, ASTNode::VariableCall { .. }));
        }
        other => panic!("{other:?}"),
    }
}

#[test]
fn dot_glued_to_a_name_is_not_member_access() {
    assert!(parse_src("let q: qbit[2]; q.m;").is_err());
}

#[test]
fn dereference_and_reference() {
    let v = statements("let a: qbit; *a; &a;");
    assert!(matches!(&v[1], ASTNode::Dereference { .. }));
    assert!(matches!(&v[2], ASTNode::Reference { .. }));
}

#[test]
fn return_needs_a_value() {
    assert!(parse_src("qbit f() { return; }").is_err());
}

#[test]
fn call_of_a_non_name_is_rejected() {
    assert!(parse_src("let a: qbit[2]; a[0](a);").is_err());
}

#[test]
fn stray_punctuation_is_skipped() {
    let v = statements("let a: qbit; ! HAD a!;");
    assert_eq!(v.len(), 2);
    match &v[1] {
        ASTNode::GateCall { name, args } => {
            assert_eq!(name, "HAD");
            assert_eq!(args.len(), 1);
        }
        other => panic!("{other:?}"),
    }
}

#[test]
fn parse_error_names_the_offending_token() {
    let e = parse_src("let = 3;").unwrap_err();
    assert!(e.ends_with(", got ="), "{e}");
}

#[test]
fn parse_error_names_the_end_of_input() {
    let e = parse_src("for (k in 0..3) { HAD $k;").unwrap_err();
    assert!(e.ends_with(", got end of input"), "{e}");
}
