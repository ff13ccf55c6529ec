//! Properties of the generator, stated over `semantics` and proved.
use vstd::prelude::*;
use crate::emit::{bit, decimal, indexed, qal_family, qubit_count, set_family, shr, two_to};
use crate::parser::Ast;
use crate::emit::{cpy_family, fre_family, tmp};
use crate::semantics::{
    Enc, Env, bind_spec, call_decl_spec, decl_spec, enc_index, enc_operand,
    for_spec, gen_node, gen_nodes, reserve, resolve, unroll_array, unroll_range, with_alias,
    with_iterator, copy_in_spec,
};

verus! {

/// `e2` continues `e`: its program starts with `e`'s program and its qubit
/// counter is no lower.
pub open spec fn extends(e: Env, e2: Env) -> bool {
    &&& e2.i >= e.i
    &&& e.program.len() <= e2.program.len()
    &&& e2.program.subrange(0, e.program.len() as int) == e.program
}

/// The bookkeeping of variables: every variable with a region has its
/// information, its region is recorded by its start as `(start, 0)`, and the
/// `size` qubits from that start lie below the qubit counter.
pub open spec fn env_wf(e: Env) -> bool {
    &&& e.vars.dom() == e.var_info.dom()
    &&& forall|n: Seq<char>|
        #[trigger] e.vars.contains_key(n) ==> e.vars[n].1 == 0 && e.vars[n].0 + e.var_info[n].1
            <= e.i
}

/// `e2` continues `e` and keeps its bookkeeping sound.
pub open spec fn follows(e: Env, e2: Env) -> bool {
    extends(e, e2) && (env_wf(e) ==> env_wf(e2))
}

proof fn lemma_follows_trans(a: Env, b: Env, c: Env)
    requires
        follows(a, b),
        follows(b, c),
    ensures
        follows(a, c),
{
    lemma_extends_trans(a, b, c);
}

proof fn lemma_extends_trans(a: Env, b: Env, c: Env)
    requires
        extends(a, b),
        extends(b, c),
    ensures
        extends(a, c),
{
    assert(c.program.subrange(0, a.program.len() as int) =~= c.program.subrange(
        0,
        b.program.len() as int,
    ).subrange(0, a.program.len() as int));
}

proof fn lemma_emit_extends(e: Env, t: Seq<char>)
    ensures
        follows(e, crate::semantics::emit(e, t)),
{
    assert(crate::semantics::emit(e, t).program.subrange(0, e.program.len() as int) =~= e.program);
}

proof fn lemma_reserve_extends(e: Env, name: Seq<char>, size: usize, t: Ast, c: bool)
    ensures
        reserve(e, name, size, t, c) matches Some(e1) ==> follows(e, e1) && e1.program == e.program,
{
    assert(e.program.subrange(0, e.program.len() as int) =~= e.program);
    if let Some(e1) = reserve(e, name, size, t, c) {
        if env_wf(e) {
            assert(e1.vars.dom() =~= e1.var_info.dom());
            assert forall|n: Seq<char>| #[trigger] e1.vars.contains_key(n) implies e1.vars[n].1 == 0
                && e1.vars[n].0 + e1.var_info[n].1 <= e1.i by {
                if n != name {
                    assert(e.vars.contains_key(n));
                }
            }
        }
    }
}

proof fn lemma_same_program(e: Env, e1: Env)
    requires
        e1.program == e.program,
        e1.i >= e.i,
        e1.vars == e.vars,
        e1.var_info == e.var_info,
    ensures
        follows(e, e1),
{
    assert(e.program.subrange(0, e.program.len() as int) =~= e.program);
    if env_wf(e) {
        assert forall|n: Seq<char>| #[trigger] e1.vars.contains_key(n) implies e1.vars[n].1 == 0 && e1.vars[n].0
                + e1.var_info[n].1 <= e1.i by {
            assert(e.vars.contains_key(n));
        }
    }
}

proof fn lemma_copy_in_extends(e: Env, name: Seq<char>, size: usize, t: Ast, token: int)
    ensures
        copy_in_spec(e, name, size, t, token) matches Some(e2) ==> follows(e, e2),
{
    lemma_reserve_extends(e, name, size, t, crate::semantics::is_const_kind(token));
    if let Some(e1) = reserve(e, name, size, t, crate::semantics::is_const_kind(token)) {
        let text = qal_family(name, size as int) + crate::emit::cpy_family(name, crate::emit::tmp(), size as int)
            + crate::emit::fre_family(crate::emit::tmp(), size as int);
        lemma_emit_extends(e1, text);
        lemma_follows_trans(e, e1, crate::semantics::emit(e1, text));
    }
}

proof fn lemma_bind_keeps(base: Env, e: Env, ps: Seq<Seq<char>>, args: Seq<Ast>, k: int)
    ensures
        bind_spec(base, e, ps, args, k) matches Some(e1) ==> e1.program == e.program && e1.i == e.i
            && e1.functions == e.functions && e1.function_info == e.function_info && e1.vars
            == e.vars && e1.var_info == e.var_info,
    decreases k,
{
    if k > 0 {
        lemma_bind_keeps(base, e, ps, args, k - 1);
    }
}

proof fn lemma_nodes_extend(d: nat, nodes: Seq<Ast>, e: Env)
    ensures
        gen_nodes(d, nodes, e) matches Some(e2) ==> follows(e, e2),
    decreases d, nodes, 0int,
{
    if nodes.len() == 0 {
        lemma_same_program(e, e);
    } else {
        lemma_node_extends(d, nodes[0], e);
        if let Some(e1) = gen_node(d, nodes[0], e) {
            lemma_nodes_extend(d, nodes.drop_first(), e1);
            if let Some(e2) = gen_nodes(d, nodes.drop_first(), e1) {
                lemma_follows_trans(e, e1, e2);
            }
        }
    }
}

proof fn lemma_node_extends(d: nat, n: Ast, e: Env)
    ensures
        gen_node(d, n, e) matches Some(e2) ==> follows(e, e2),
    decreases d, n, 2int,
{
    match n {
        Ast::VariableDecl { name, value, type_, token } => {
            lemma_decl_extends(d, e, name, value, type_, token);
        },
        Ast::FunctionDef { .. } => {
            lemma_same_program(e, e);
            if let Some(e2) = gen_node(d, n, e) {
                lemma_same_program(e, e2);
            }
        },
        Ast::For { container, alias, body } => {
            lemma_for_extends(d, e, alias, *container, body);
        },
        _ => {
            if let Some(e2) = gen_node(d, n, e) {
                assert(exists|t: Seq<char>| e2 == crate::semantics::emit(e, t)) by {
                    match n {
                        Ast::GateCall { .. } => {
                            if e2 == e {
                                assert(e2 == crate::semantics::emit(e, seq![])) by {
                                    assert(e.program + seq![] =~= e.program);
                                }
                            }
                        },
                        _ => {},
                    }
                }
                let t = choose|t: Seq<char>| e2 == crate::semantics::emit(e, t);
                lemma_emit_extends(e, t);
            }
        },
    }
}

proof fn lemma_decl_extends(d: nat, e: Env, name: Seq<char>, value: Option<Box<Ast>>, type_: Option<Box<Ast>>, token: int)
    ensures
        decl_spec(d, e, name, value, type_, token) matches Some(e2) ==> follows(e, e2),
    decreases d, value, 1int,
{
    let c = crate::semantics::is_const_kind(token);
    match type_ {
        Some(t) => {
            match *t {
                Ast::ArrayType { type_: _, size } => {
                    if let Ast::Num(s) = *size {
                        if 0 <= s <= i32::MAX {
                            lemma_reserve_extends(e, name, s as usize, *t, c);
                            if let Some(e1) = reserve(e, name, s as usize, *t, c) {
                                lemma_emit_extends(e1, qal_family(name, s));
                                lemma_follows_trans(e, e1, crate::semantics::emit(e1, qal_family(name, s)));
                            }
                        }
                    }
                },
                Ast::Qbit => {
                    lemma_reserve_extends(e, name, 1, *t, c);
                    if let Some(e1) = reserve(e, name, 1, *t, c) {
                        lemma_emit_extends(e1, crate::emit::qal_line(name));
                        lemma_follows_trans(e, e1, crate::semantics::emit(e1, crate::emit::qal_line(name)));
                    }
                },
                _ => {},
            }
        },
        None => match value {
            None => {},
            Some(v) => match *v {
                Ast::Num(n) => {
                    let k = qubit_count(n);
                    let t = Ast::ArrayType { type_: Box::new(Ast::Qbit), size: Box::new(Ast::Num(n)) };
                    lemma_reserve_extends(e, name, k as usize, t, c);
                    if let Some(e1) = reserve(e, name, k as usize, t, c) {
                        let text = qal_family(name, k) + set_family(name, n, k);
                        lemma_emit_extends(e1, text);
                        lemma_follows_trans(e, e1, crate::semantics::emit(e1, text));
                    }
                },
                Ast::VariableCall { name: src } => {
                    let s = resolve(e, src);
                    if e.var_info.contains_key(s) {
                        lemma_copy_in_extends(e, name, e.var_info[s].1, e.var_info[s].2, token);
                    }
                },
                Ast::FunctionCall { name: f, args } => {
                    lemma_call_extends(d, e, name, f, args, token);
                },
                _ => {},
            },
        },
    }
}

proof fn lemma_call_extends(d: nat, e: Env, name: Seq<char>, f: Seq<char>, args: Seq<Ast>, token: int)
    ensures
        call_decl_spec(d, e, name, f, args, token) matches Some(e2) ==> follows(e, e2),
    decreases d, args, 0int,
{
    if !(d == 0 || !e.function_args.contains_key(f) || args.len() != e.function_args[f].len()) {
        let ps = e.function_args[f];
        lemma_bind_keeps(e, e, ps, args, args.len() as int);
        if let Some(e1) = bind_spec(e, e, ps, args, args.len() as int) {
            lemma_same_program(e, e1);
            if e1.functions.contains_key(f) {
                if let Ast::Block(stmts) = e1.functions[f] {
                    lemma_nodes_extend((d - 1) as nat, stmts, e1);
                    if let Some(e2) = gen_nodes((d - 1) as nat, stmts, e1) {
                        lemma_follows_trans(e, e1, e2);
                        if e2.function_info.contains_key(f) {
                            let ret = e2.function_info[f].1;
                            if let Some(size) = crate::semantics::ret_size(ret) {
                                lemma_copy_in_extends(e2, name, size, ret, token);
                                if let Some(e3) = copy_in_spec(e2, name, size, ret, token) {
                                    lemma_follows_trans(e, e2, e3);
                                }
                            }
                        }
                    }
                }
            }
        }
    }
}

proof fn lemma_for_extends(d: nat, e: Env, alias: Seq<char>, container: Ast, body: Option<Box<Ast>>)
    ensures
        for_spec(d, e, alias, container, body) matches Some(e2) ==> follows(e, e2),
    decreases d, body, 0int,
{
    lemma_same_program(e, e);
    match container {
        Ast::Range { start, end } => {
            if let (Ast::Num(a), Ast::Num(b)) = (*start, *end) {
                if let Some(bx) = body {
                    if let Ast::Block(stmts) = *bx {
                        lemma_unroll_range_extends(d, e, alias, stmts, a, b);
                    }
                }
            }
        },
        Ast::VariableCall { name } => {
            let arr = resolve(e, name);
            if e.var_info.contains_key(arr) {
                if let Ast::ArrayType { type_: elem, size } = e.var_info[arr].2 {
                    if let Ast::Num(s) = *size {
                        let w = crate::semantics::elem_width(*elem);
                        lemma_reserve_extends(e, alias, w, *elem, true);
                        if let Some(e1) = reserve(e, alias, w, *elem, true) {
                            if let Some(bx) = body {
                                if let Ast::Block(stmts) = *bx {
                                    lemma_unroll_array_extends(d, e1, alias, arr, stmts, 0, s);
                                    if let Some(e2) = unroll_array(d, e1, alias, arr, stmts, 0, s) {
                                        lemma_follows_trans(e, e1, e2);
                                    }
                                }
                            }
                        }
                    }
                }
            }
        },
        _ => {},
    }
}

proof fn lemma_unroll_range_extends(d: nat, e: Env, alias: Seq<char>, body: Seq<Ast>, k: int, b: int)
    ensures
        unroll_range(d, e, alias, body, k, b) matches Some(e2) ==> follows(e, e2),
    decreases d, body, b - k,
{
    lemma_same_program(e, e);
    if k < b {
        let e0 = with_iterator(e, alias, k);
        lemma_same_program(e, e0);
        lemma_nodes_extend(d, body, e0);
        if let Some(e1) = gen_nodes(d, body, e0) {
            lemma_follows_trans(e, e0, e1);
            lemma_unroll_range_extends(d, e1, alias, body, k + 1, b);
            if let Some(e2) = unroll_range(d, e1, alias, body, k + 1, b) {
                lemma_follows_trans(e, e1, e2);
            }
        }
    }
}

proof fn lemma_unroll_array_extends(d: nat, e: Env, alias: Seq<char>, arr: Seq<char>, body: Seq<Ast>, k: int, s: int)
    ensures
        unroll_array(d, e, alias, arr, body, k, s) matches Some(e2) ==> follows(e, e2),
    decreases d, body, s - k,
{
    lemma_same_program(e, e);
    if k < s {
        let e0 = with_alias(e, alias, indexed(arr, k));
        lemma_same_program(e, e0);
        lemma_nodes_extend(d, body, e0);
        if let Some(e1) = gen_nodes(d, body, e0) {
            lemma_follows_trans(e, e0, e1);
            lemma_unroll_array_extends(d, e1, alias, arr, body, k + 1, s);
            if let Some(e2) = unroll_array(d, e1, alias, arr, body, k + 1, s) {
                lemma_follows_trans(e, e1, e2);
            }
        }
    }
}

/// Generation keeps the bookkeeping of variables sound: from an
/// environment where every variable with a region has its information, its
/// region recorded as `(start, 0)` and its qubits below the counter,
/// generation ends in such an environment. The empty environment is one.
pub proof fn generation_keeps_bookkeeping(d: nat, nodes: Seq<Ast>, e: Env)
    requires
        env_wf(e),
    ensures
        env_wf(crate::semantics::empty_env()),
        gen_nodes(d, nodes, e) matches Some(e2) ==> env_wf(e2),
{
    lemma_nodes_extend(d, nodes, e);
    assert(crate::semantics::empty_env().vars.dom() =~= crate::semantics::empty_env().var_info.dom());
}

/// Generation only appends to the program, and the qubit counter never goes
/// down: for any statements and environment, a successful generation ends
/// in an environment whose program starts with the old program and whose
/// counter is at least the old counter.
pub proof fn generation_extends(d: nat, nodes: Seq<Ast>, e: Env)
    ensures
        gen_nodes(d, nodes, e) matches Some(e2) ==> extends(e, e2),
{
    lemma_nodes_extend(d, nodes, e);
}

// ---------------------------------------------------------------- allocation

/// The declaration `name: elem[n]`, with or without a value.
pub open spec fn array_decl(name: Seq<char>, elem: Ast, n: int, value: Option<Box<Ast>>, token: int) -> Ast {
    Ast::VariableDecl {
        name,
        value,
        type_: Some(Box::new(Ast::ArrayType { type_: Box::new(elem), size: Box::new(Ast::Num(n)) })),
        token,
    }
}

/// Declaring an array of `n` qubits appends exactly the `QAL` lines of
/// `name_0 .. name_{n-1}`, in order and nothing between them, and records
/// the size; whatever the statements after it generate comes after those
/// lines.
pub proof fn array_declaration_allocates(d: nat, e: Env, name: Seq<char>, elem: Ast, n: int, value: Option<Box<Ast>>, token: int, rest: Seq<Ast>)
    ensures
        gen_nodes(d, seq![array_decl(name, elem, n, value, token)] + rest, e) is Some ==> (gen_node(d, array_decl(name, elem, n, value, token), e) matches Some(e1) && e1.program
            == e.program + qal_family(name, n) && e1.var_info[name].1 == n && e1.vars[name] == (e.i, 0usize)
            && e1.i == e.i + n),
        gen_nodes(d, seq![array_decl(name, elem, n, value, token)] + rest, e) is Some ==> (gen_nodes(d, seq![array_decl(name, elem, n, value, token)] + rest, e) matches Some(e2)
            && e2.program.subrange(0, (e.program.len() + qal_family(name, n).len()) as int) == e.program
            + qal_family(name, n)),
{
    if gen_nodes(d, seq![array_decl(name, elem, n, value, token)] + rest, e) is Some {
        let all = seq![array_decl(name, elem, n, value, token)] + rest;
        assert(all[0] == array_decl(name, elem, n, value, token));
        assert(all.drop_first() =~= rest);
        let e1 = gen_node(d, all[0], e)->0;
        lemma_nodes_extend(d, rest, e1);
    }
}

// ---------------------------------------------------------------- literals

/// The value that the first `k` bits of `v` stand for, least significant
/// first.
pub open spec fn bits_value(v: int, k: int) -> int
    decreases k,
{
    if k <= 0 {
        0
    } else {
        bits_value(v, k - 1) + if bit(v, k - 1) {
            two_to((k - 1) as nat)
        } else {
            0
        }
    }
}

/// The declaration `let name = n;`.
pub open spec fn literal_decl(name: Seq<char>, n: int, token: int) -> Ast {
    Ast::VariableDecl { name, value: Some(Box::new(Ast::Num(n))), type_: None, token }
}

/// `let name = n;` appends the `QAL` lines of `qubit_count(n)` qubits, then
/// one `SET` line per qubit, qubit `j` carrying bit `j` of `n`.
pub proof fn literal_declaration_sets_bits(d: nat, e: Env, name: Seq<char>, n: int, token: int)
    ensures
        gen_node(d, literal_decl(name, n, token), e) is Some ==> (0 <= n),
        gen_node(d, literal_decl(name, n, token), e) is Some ==> (gen_node(d, literal_decl(name, n, token), e) matches Some(e1) && e1.program == e.program
            + qal_family(name, qubit_count(n)) + set_family(name, n, qubit_count(n)) && e1.vars[name] == (e.i, 0usize)
            && e1.i == e.i + (qubit_count(n) as usize) && e1.var_info[name] == (crate::semantics::is_const_kind(token),
            qubit_count(n) as usize, Ast::ArrayType { type_: Box::new(Ast::Qbit), size: Box::new(Ast::Num(n)) })),
{
    if gen_node(d, literal_decl(name, n, token), e) is Some {
        let k = qubit_count(n);
        assert(e.program + (qal_family(name, k) + set_family(name, n, k)) =~= e.program + qal_family(name, k) + set_family(name, n, k));
    }
}

proof fn lemma_two_to_pos(k: nat)
    ensures
        two_to(k) > 0,
    decreases k,
{
    if k > 0 {
        lemma_two_to_pos((k - 1) as nat);
    }
}

proof fn lemma_shr_div(v: int, j: int)
    requires
        0 <= v,
        0 <= j,
    ensures
        shr(v, j) == v / two_to(j as nat),
    decreases j,
{
    if j > 0 {
        lemma_shr_div(v, j - 1);
        lemma_two_to_pos((j - 1) as nat);
        vstd::arithmetic::div_mod::lemma_div_denominator(v, two_to((j - 1) as nat), 2);
        assert(two_to(j as nat) == two_to((j - 1) as nat) * 2);
    }
}

proof fn lemma_bits_value_mod(v: int, k: int)
    requires
        0 <= v,
        0 <= k,
    ensures
        bits_value(v, k) == v % two_to(k as nat),
    decreases k,
{
    if k == 0 {
    } else {
        lemma_bits_value_mod(v, k - 1);
        let y = two_to((k - 1) as nat);
        lemma_two_to_pos((k - 1) as nat);
        lemma_shr_div(v, k - 1);
        vstd::arithmetic::div_mod::lemma_breakdown(v, y, 2);
        assert(two_to(k as nat) == y * 2);
        vstd::arithmetic::div_mod::lemma_mod_pos_bound(v / y, 2);
        let m = (v / y) % 2;
        assert(shr(v, k - 1) % 2 == m);
        if bit(v, k - 1) {
            assert(m == 1);
            assert(y * m == y) by (nonlinear_arith)
                requires
                    m == 1,
            ;
        } else {
            assert(m == 0);
            assert(y * m == 0) by (nonlinear_arith)
                requires
                    m == 0,
            ;
        }
    }
}

/// The first `k` bits of `n >= 0`, least significant first, stand for
/// `n mod 2^k`: the `SET` lines of a literal encode `n mod 2^qubit_count(n)`.
pub proof fn literal_bits_encode_mod(n: int, k: int)
    requires
        0 <= n,
        0 <= k,
    ensures
        bits_value(n, k) == n % two_to(k as nat),
{
    lemma_bits_value_mod(n, k);
}

/// The bits that the `SET` lines carry give back `n`, least significant
/// first, whenever `n` fits in `qubit_count(n)` bits (every `n >= 0` but the
/// powers of two from 4 on).
pub proof fn literal_bits_reconstruct(n: int)
    requires
        0 <= n,
        n < two_to(qubit_count(n) as nat),
    ensures
        bits_value(n, qubit_count(n)) == n,
{
    lemma_bits_value_mod(n, qubit_count(n));
    vstd::arithmetic::div_mod::lemma_small_mod(n as nat, two_to(qubit_count(n) as nat) as nat);
}

// ---------------------------------------------------------------- loops

/// `for (alias in a..b) { stmts }`.
pub open spec fn range_for(alias: Seq<char>, a: int, b: int, stmts: Seq<Ast>) -> Ast {
    Ast::For {
        container: Box::new(Ast::Range { start: Box::new(Ast::Num(a)), end: Box::new(Ast::Num(b)) }),
        alias,
        body: Some(Box::new(Ast::Block(stmts))),
    }
}

proof fn lemma_range_chain(d: nat, e: Env, alias: Seq<char>, body: Seq<Ast>, k: int, b: int) -> (es: Seq<Env>)
    requires
        unroll_range(d, e, alias, body, k, b) is Some,
    ensures
        es.len() == (if k < b { b - k } else { 0 }) + 1,
        es[0] == e,
        unroll_range(d, e, alias, body, k, b) == Some(es.last()),
        forall|j: int|
            0 <= j < es.len() - 1 ==> gen_nodes(d, body, with_iterator(es[j], alias, k + j)) == Some(
                #[trigger] es[j + 1],
            ),
        forall|j: int| 0 <= j < es.len() - 1 ==> extends(es[j], #[trigger] es[j + 1]),
    decreases b - k,
{
    if k >= b {
        seq![e]
    } else {
        let e0 = with_iterator(e, alias, k);
        let e1 = gen_nodes(d, body, e0)->0;
        lemma_same_program(e, e0);
        lemma_nodes_extend(d, body, e0);
        lemma_follows_trans(e, e0, e1);
        let rest = lemma_range_chain(d, e1, alias, body, k + 1, b);
        let es = seq![e] + rest;
        assert forall|j: int| 0 <= j < es.len() - 1 implies gen_nodes(d, body, with_iterator(es[j], alias, k + j)) == Some(
            #[trigger] es[j + 1],
        ) && extends(es[j], es[j + 1]) by {
            if j > 0 {
                assert(es[j] == rest[j - 1]);
                assert(es[j + 1] == rest[j]);
                assert(k + j == (k + 1) + (j - 1));
                assert(gen_nodes(d, body, with_iterator(rest[j - 1], alias, (k + 1) + (j - 1))) == Some(rest[(j - 1) + 1]));
                assert(extends(rest[j - 1], rest[(j - 1) + 1]));
            } else {
                assert(es[0] == e);
                assert(es[1] == rest[0]);
                assert(k + j == k);
            }
        }
        es
    }
}

/// A `for` over `a..b` generates its body once for each `k` in `a..b`, in
/// order: round `k - a` starts from the environment the previous round left,
/// with the loop variable bound to `k`, and appends to the program; in that
/// round the loop variable renders as `k` in decimal. The result lists the
/// environments between rounds; with `a >= b` there is no round.
pub proof fn range_loop_unrolls(d: nat, e: Env, alias: Seq<char>, a: int, b: int, stmts: Seq<Ast>) -> (es: Seq<Env>)
    requires
        i32::MIN <= a <= i32::MAX,
        i32::MIN <= b <= i32::MAX,
    ensures
        gen_node(d, range_for(alias, a, b, stmts), e) is Some ==> (es.len() == (if a < b { b - a } else { 0 }) + 1),
        gen_node(d, range_for(alias, a, b, stmts), e) is Some ==> (es[0] == e),
        gen_node(d, range_for(alias, a, b, stmts), e) is Some ==> (gen_node(d, range_for(alias, a, b, stmts), e) == Some(es.last())),
        gen_node(d, range_for(alias, a, b, stmts), e) is Some ==> (forall|k: int|
            0 <= k < es.len() - 1 ==> gen_nodes(d, stmts, with_iterator(es[k], alias, a + k)) == Some(
                #[trigger] es[k + 1],
            )),
        gen_node(d, range_for(alias, a, b, stmts), e) is Some ==> (forall|k: int| 0 <= k < es.len() - 1 ==> extends(es[k], #[trigger] es[k + 1])),
        gen_node(d, range_for(alias, a, b, stmts), e) is Some ==> (forall|k: int|
            0 <= k < es.len() - 1 ==> enc_index(
                with_iterator(#[trigger] es[k], alias, a + k),
                Ast::IntCall { name: alias },
            ) == Enc::Text(decimal(a + k))),
{
    if gen_node(d, range_for(alias, a, b, stmts), e) is Some {
        let es = lemma_range_chain(d, e, alias, stmts, a, b);
        assert forall|k: int| 0 <= k < es.len() - 1 implies enc_index(
            with_iterator(#[trigger] es[k], alias, a + k),
            Ast::IntCall { name: alias },
        ) == Enc::Text(decimal(a + k)) by {
            assert(a <= a + k < b);
        }
        es
    } else {
        seq![e]
    }
}

/// `for (alias in name) { stmts }`.
pub open spec fn array_for(alias: Seq<char>, name: Seq<char>, stmts: Seq<Ast>) -> Ast {
    Ast::For {
        container: Box::new(Ast::VariableCall { name }),
        alias,
        body: Some(Box::new(Ast::Block(stmts))),
    }
}

proof fn lemma_array_chain(d: nat, e: Env, alias: Seq<char>, arr: Seq<char>, body: Seq<Ast>, k: int, s: int) -> (es: Seq<Env>)
    requires
        unroll_array(d, e, alias, arr, body, k, s) is Some,
    ensures
        es.len() == (if k < s { s - k } else { 0 }) + 1,
        es[0] == e,
        unroll_array(d, e, alias, arr, body, k, s) == Some(es.last()),
        forall|j: int|
            0 <= j < es.len() - 1 ==> gen_nodes(d, body, with_alias(es[j], alias, indexed(arr, k + j)))
                == Some(#[trigger] es[j + 1]),
        forall|j: int| 0 <= j < es.len() - 1 ==> extends(es[j], #[trigger] es[j + 1]),
    decreases s - k,
{
    if k >= s {
        seq![e]
    } else {
        let e0 = with_alias(e, alias, indexed(arr, k));
        let e1 = gen_nodes(d, body, e0)->0;
        lemma_same_program(e, e0);
        lemma_nodes_extend(d, body, e0);
        lemma_follows_trans(e, e0, e1);
        let rest = lemma_array_chain(d, e1, alias, arr, body, k + 1, s);
        let es = seq![e] + rest;
        assert forall|j: int| 0 <= j < es.len() - 1 implies gen_nodes(d, body, with_alias(es[j], alias, indexed(arr, k + j)))
            == Some(#[trigger] es[j + 1]) && extends(es[j], es[j + 1]) by {
            if j > 0 {
                assert(es[j] == rest[j - 1]);
                assert(es[j + 1] == rest[j]);
                assert(k + j == (k + 1) + (j - 1));
                assert(gen_nodes(d, body, with_alias(rest[j - 1], alias, indexed(arr, (k + 1) + (j - 1)))) == Some(rest[(j - 1) + 1]));
                assert(extends(rest[j - 1], rest[(j - 1) + 1]));
            } else {
                assert(es[0] == e);
                assert(es[1] == rest[0]);
                assert(k + j == k);
            }
        }
        es
    }
}

/// A `for` over an array variable of `s` elements first reserves the loop
/// variable's slot, then generates its body once for each `k` in `0..s`, in
/// order, with the loop variable standing for `arr_k`; in that round an
/// operand naming the loop variable renders as `$arr_k `. The result lists
/// the environments between rounds, the first one after the reservation.
pub proof fn array_loop_unrolls(d: nat, e: Env, alias: Seq<char>, name: Seq<char>, stmts: Seq<Ast>) -> (es: Seq<Env>)
    ensures
        gen_node(d, array_for(alias, name, stmts), e) is Some ==> (({
            let arr = resolve(e, name);
            &&& e.var_info.contains_key(arr)
            &&& e.var_info[arr].2 matches Ast::ArrayType { type_: elem, size } && *size matches Ast::Num(
                s,
            ) && {
                &&& es.len() == (if 0 < s { s } else { 0 }) + 1
                &&& reserve(e, alias, crate::semantics::elem_width(*elem), *elem, true) == Some(es[0])
                &&& gen_node(d, array_for(alias, name, stmts), e) == Some(es.last())
                &&& forall|k: int|
                    0 <= k < es.len() - 1 ==> gen_nodes(
                        d,
                        stmts,
                        with_alias(es[k], alias, indexed(arr, k)),
                    ) == Some(#[trigger] es[k + 1])
                &&& forall|k: int| 0 <= k < es.len() - 1 ==> extends(es[k], #[trigger] es[k + 1])
                &&& forall|k: int|
                    0 <= k < es.len() - 1 ==> enc_operand(
                        with_alias(#[trigger] es[k], alias, indexed(arr, k)),
                        Ast::VariableCall { name: alias },
                    ) == Enc::Text(seq!['$'] + indexed(arr, k) + seq![' '])
            }
        })),
{
    if gen_node(d, array_for(alias, name, stmts), e) is Some {
        let arr = resolve(e, name);
        let t = e.var_info[arr].2;
        let elem = t->ArrayType_type_;
        let s = t->ArrayType_size->Num_0;
        let e1 = reserve(e, alias, crate::semantics::elem_width(*elem), *elem, true)->0;
        lemma_array_chain(d, e1, alias, arr, stmts, 0, s)
    } else {
        seq![e]
    }
}

// ---------------------------------------------------------------- inlining

/// `let name = f(args);`.
pub open spec fn call_decl(name: Seq<char>, f: Seq<char>, args: Seq<Ast>, token: int) -> Ast {
    Ast::VariableDecl {
        name,
        value: Some(Box::new(Ast::FunctionCall { name: f, args })),
        type_: None,
        token,
    }
}

/// A call site carries the whole body of the callee: binding the
/// parameters emits nothing, the body of `f` is generated in full from the
/// bound environment, and then `name` is allocated by the return type and
/// takes the returned family, which is released. Nothing is shared with
/// other call sites. The result is the bound environment, the body and the
/// environment after the body.
pub proof fn call_site_inlines_body(d: nat, e: Env, name: Seq<char>, f: Seq<char>, args: Seq<Ast>, token: int) -> (r: (Env, Seq<Ast>, Env))
    ensures
        gen_node(d, call_decl(name, f, args, token), e) is Some ==> (d > 0),
        gen_node(d, call_decl(name, f, args, token), e) is Some ==> (e.function_args.contains_key(f)),
        gen_node(d, call_decl(name, f, args, token), e) is Some ==> (bind_spec(e, e, e.function_args[f], args, args.len() as int) == Some(r.0)),
        gen_node(d, call_decl(name, f, args, token), e) is Some ==> (r.0.program == e.program),
        gen_node(d, call_decl(name, f, args, token), e) is Some ==> (r.0.i == e.i),
        gen_node(d, call_decl(name, f, args, token), e) is Some ==> (e.functions.contains_key(f)),
        gen_node(d, call_decl(name, f, args, token), e) is Some ==> (e.functions[f] == Ast::Block(r.1)),
        gen_node(d, call_decl(name, f, args, token), e) is Some ==> (gen_nodes((d - 1) as nat, r.1, r.0) == Some(r.2)),
        gen_node(d, call_decl(name, f, args, token), e) is Some ==> (extends(e, r.2)),
        gen_node(d, call_decl(name, f, args, token), e) is Some ==> (r.2.function_info.contains_key(f)),
        gen_node(d, call_decl(name, f, args, token), e) is Some ==> (crate::semantics::ret_size(r.2.function_info[f].1) matches Some(size) && gen_node(
            d,
            call_decl(name, f, args, token),
            e,
        ) matches Some(e3) && e3.program == r.2.program + (qal_family(name, size as int)
            + cpy_family(name, tmp(), size as int) + fre_family(tmp(), size as int))),
{
    if gen_node(d, call_decl(name, f, args, token), e) is Some {
        let ps = e.function_args[f];
        lemma_bind_keeps(e, e, ps, args, args.len() as int);
        let e1 = bind_spec(e, e, ps, args, args.len() as int)->0;
        let stmts = e1.functions[f]->Block_0;
        let e2 = gen_nodes((d - 1) as nat, stmts, e1)->0;
        lemma_same_program(e, e1);
        lemma_nodes_extend((d - 1) as nat, stmts, e1);
        lemma_follows_trans(e, e1, e2);
        (e1, stmts, e2)
    } else {
        (e, seq![], e)
    }
}

} // verus!
