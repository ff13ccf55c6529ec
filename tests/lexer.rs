use qelc::tokenizer::{filter50s, filter_all, is_num, rm_comments, tokenize, Token};

fn kinds(ts: &[Token]) -> Vec<i32> {
    ts.iter().map(|t| t.token).collect()
}

fn texts(ts: &[Token]) -> Vec<String> {
    ts.iter().map(|t| t.value.clone()).collect()
}

fn lex_all(src: &str) -> Vec<Token> {
    filter_all(filter50s(tokenize(src)))
}

#[test]
fn line_comment_keeps_newline() {
    assert_eq!(rm_comments("a // note\nb"), "a \nb");
}

#[test]
fn block_comment_removed() {
    assert_eq!(rm_comments("a/* x\ny */b"), "ab");
}

#[test]
fn unterminated_block_comment_swallows_rest() {
    assert_eq!(rm_comments("keep /* lost\nlost"), "keep ");
}

#[test]
fn text_without_comments_unchanged() {
    assert_eq!(rm_comments("let x = 5;"), "let x = 5;");
}

#[test]
fn tokenize_declaration() {
    let ts = tokenize("let x = 5;");
    assert_eq!(kinds(&ts), vec![16, 70, 12, 70, 10]);
    assert_eq!(texts(&ts), vec!["let", "x", "=", "5", ";"]);
}

#[test]
fn keyword_glued_to_a_letter_is_an_identifier() {
    let ts = tokenize("letx;");
    assert_eq!(kinds(&ts), vec![70, 10]);
    assert_eq!(ts[0].value, "letx");
}

#[test]
fn equal_sign_without_space_is_punctuation() {
    let ts = tokenize("x=1;");
    assert_eq!(kinds(&ts), vec![70, 75, 70, 10]);
}

#[test]
fn range_operator_is_accepted() {
    let ts = tokenize("0..3)");
    assert_eq!(kinds(&ts), vec![70, 15, 70, 4]);
}

#[test]
fn gate_mnemonic_before_parenthesis() {
    let ts = tokenize("xS(");
    assert_eq!(texts(&ts), vec!["x", "S", "("]);
    assert_eq!(kinds(&ts), vec![70, 35, 3]);
}

#[test]
fn keyword_at_end_of_input_is_not_a_keyword() {
    let ts = tokenize("let");
    assert_eq!(kinds(&ts), vec![70]);
}

#[test]
fn whitespace_is_dropped() {
    let ts = tokenize(" \t a \n b ");
    assert_eq!(texts(&ts), vec!["a", "b"]);
}

#[test]
fn comments_do_not_reach_tokens() {
    let ts = tokenize("a // b\n/* c */ d");
    assert_eq!(texts(&ts), vec!["a", "d"]);
}

#[test]
fn numbers_by_float_rules() {
    for s in ["12", "1.5", "1e5", "inf", "NaN", "Infinity", "-3", ".5", "5.", "+2E-3"] {
        assert!(is_num(s.to_string()), "{s}");
    }
    for s in ["abc", "", ".", "e5", "1e", "--1", "in", "1.2.3"] {
        assert!(!is_num(s.to_string()), "{s}");
    }
}

#[test]
fn scope_pass_declaration_then_reference() {
    let ts = filter50s(tokenize("let x = 5; x = 3;"));
    assert_eq!(kinds(&ts), vec![16, 70, 12, 72, 10, 71, 12, 72, 10]);
}

#[test]
fn scope_pass_forgets_inner_names() {
    let ts = filter50s(tokenize("{ a; } a;"));
    assert_eq!(kinds(&ts), vec![5, 70, 10, 6, 70, 10]);
}

#[test]
fn scope_pass_sees_outer_names() {
    let ts = filter50s(tokenize("a; { a; }"));
    assert_eq!(kinds(&ts), vec![70, 10, 5, 71, 10, 6]);
}

#[test]
fn scope_pass_unbalanced_close_stays_at_top() {
    let ts = filter50s(tokenize("} a; a;"));
    assert_eq!(kinds(&ts), vec![6, 70, 10, 71, 10]);
}

#[test]
fn scope_pass_twice_changes_nothing() {
    let src = "qbit f() { let t = 1; return t; } let r = f(); { let t = 2; } t;";
    let once = filter50s(tokenize(src));
    let twice = filter50s(once.clone());
    assert_eq!(once, twice);
}

#[test]
fn filter_all_forces_numeric_identifiers() {
    let ts = vec![
        Token { token: 70, value: "7".to_string() },
        Token { token: 71, value: "1e3".to_string() },
        Token { token: 70, value: "x".to_string() },
        Token { token: 12, value: "5".to_string() },
    ];
    assert_eq!(kinds(&filter_all(ts)), vec![72, 72, 70, 12]);
}

#[test]
fn full_lexing_of_a_loop() {
    let ts = lex_all("for (k in 0..3) { HAD $k; }");
    assert_eq!(kinds(&ts), vec![41, 3, 70, 42, 72, 15, 72, 4, 5, 24, 45, 71, 10, 6]);
}
