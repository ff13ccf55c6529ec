//! What the generator does, as spec functions over an abstract environment.
//! Each returns the environment after the construct, or `None` for a
//! compile error.
use vstd::prelude::*;
use crate::emit::{
    bit, cpy_family, decimal, fre_family, indexed, qal_family, qal_line, qubit_count, set_family,
    set_line, tmp,
};
use crate::grammar::CONST_KIND;
use crate::parser::Ast;

verus! {

/// How deep function calls may be inlined inside one another.
pub const MAX_INLINE_DEPTH: usize = 64;

/// The generator's environment as the specification sees it.
pub struct Env {
    pub program: Seq<char>,
    pub functions: Map<Seq<char>, Ast>,
    pub function_info: Map<Seq<char>, (Seq<Ast>, Ast)>,
    pub function_args: Map<Seq<char>, Seq<Seq<char>>>,
    pub vars: Map<Seq<char>, (usize, usize)>,
    pub var_info: Map<Seq<char>, (bool, usize, Ast)>,
    pub iterators: Map<Seq<char>, i64>,
    pub aliases: Map<Seq<char>, Seq<char>>,
    pub i: usize,
}

/// The empty environment.
pub open spec fn empty_env() -> Env {
    Env {
        program: seq![],
        functions: Map::empty(),
        function_info: Map::empty(),
        function_args: Map::empty(),
        vars: Map::empty(),
        var_info: Map::empty(),
        iterators: Map::empty(),
        aliases: Map::empty(),
        i: 0,
    }
}

/// A name after one step of alias lookup.
pub open spec fn resolve(e: Env, n: Seq<char>) -> Seq<char> {
    if e.aliases.contains_key(n) {
        e.aliases[n]
    } else {
        n
    }
}

/// `e` with `text` appended to the program.
pub open spec fn emit(e: Env, text: Seq<char>) -> Env {
    Env { program: e.program + text, ..e }
}

/// `e` with `size` qubits reserved for `name`, of type `t`: its region is
/// recorded by its start `(i, 0)`, its size in `var_info`.
pub open spec fn reserve(e: Env, name: Seq<char>, size: usize, t: Ast, is_const: bool) -> Option<Env> {
    if e.i + size > usize::MAX {
        None
    } else {
        let end = (e.i + size) as usize;
        Some(
            Env {
                vars: e.vars.insert(name, (e.i, 0)),
                var_info: e.var_info.insert(name, (is_const, size, t)),
                i: end,
                ..e
            },
        )
    }
}

pub open spec fn is_const_kind(token: int) -> bool {
    token == CONST_KIND as int
}

/// `let name: t;`: an array of `s` qubits `name_0 ..`, or one qubit `name`.
pub open spec fn alloc_decl_spec(e: Env, name: Seq<char>, t: Ast, token: int) -> Option<Env> {
    match t {
        Ast::ArrayType { type_: _, size } => match *size {
            Ast::Num(s) => if 0 <= s <= i32::MAX {
                match reserve(e, name, s as usize, t, is_const_kind(token)) {
                    Some(e1) => Some(emit(e1, qal_family(name, s))),
                    None => None,
                }
            } else {
                None
            },
            _ => None,
        },
        Ast::Qbit => match reserve(e, name, 1, t, is_const_kind(token)) {
            Some(e1) => Some(emit(e1, qal_line(name))),
            None => None,
        },
        _ => None,
    }
}

/// `let name = n;`: the binary expansion of `n` on `qubit_count(n)` qubits.
pub open spec fn decl_num_spec(e: Env, name: Seq<char>, n: int, token: int) -> Option<Env> {
    if 0 <= n <= i32::MAX {
        let k = qubit_count(n);
        match reserve(
            e,
            name,
            k as usize,
            Ast::ArrayType { type_: Box::new(Ast::Qbit), size: Box::new(Ast::Num(n)) },
            is_const_kind(token),
        ) {
            Some(e1) => Some(emit(e1, qal_family(name, k) + set_family(name, n, k))),
            None => None,
        }
    } else {
        None
    }
}

/// Allocates `name` with the size and type of `size`/`t` and copies the
/// temporary family into it, then releases the temporaries.
pub open spec fn copy_in_spec(e: Env, name: Seq<char>, size: usize, t: Ast, token: int) -> Option<Env> {
    match reserve(e, name, size, t, is_const_kind(token)) {
        Some(e1) => Some(
            emit(
                e1,
                qal_family(name, size as int) + cpy_family(name, tmp(), size as int) + fre_family(
                    tmp(),
                    size as int,
                ),
            ),
        ),
        None => None,
    }
}

/// `let name = src;`.
pub open spec fn decl_copy_spec(e: Env, name: Seq<char>, src: Seq<char>, token: int) -> Option<Env> {
    let s = resolve(e, src);
    if e.var_info.contains_key(s) {
        copy_in_spec(e, name, e.var_info[s].1, e.var_info[s].2, token)
    } else {
        None
    }
}

/// The qubits a returned value of type `t` takes.
pub open spec fn ret_size(t: Ast) -> Option<usize> {
    match t {
        Ast::Qbit => Some(1),
        Ast::ArrayType { type_: _, size } => match *size {
            Ast::Num(s) => if 0 <= s <= i32::MAX {
                Some(s as usize)
            } else {
                None
            },
            _ => None,
        },
        _ => None,
    }
}

/// After inlining `f`: allocates `name` by `f`'s return type and copies
/// the returned family into it.
pub open spec fn finish_call_spec(e: Env, name: Seq<char>, f: Seq<char>, token: int) -> Option<Env> {
    if e.function_info.contains_key(f) {
        let ret = e.function_info[f].1;
        match ret_size(ret) {
            Some(size) => copy_in_spec(e, name, size, ret, token),
            None => None,
        }
    } else {
        None
    }
}

/// Binds parameters `ps[0..k]` to the arguments `args[0..k]`, each resolved
/// in `base`.
pub open spec fn bind_spec(base: Env, e: Env, ps: Seq<Seq<char>>, args: Seq<Ast>, k: int) -> Option<Env>
    decreases k,
{
    if k <= 0 {
        Some(e)
    } else {
        match bind_spec(base, e, ps, args, k - 1) {
            Some(e1) => match args[k - 1] {
                Ast::VariableCall { name } => Some(
                    Env { aliases: e1.aliases.insert(ps[k - 1], resolve(base, name)), ..e1 },
                ),
                _ => None,
            },
            None => None,
        }
    }
}

/// The operands' encoding: their text, or a malformed operand (the
/// instruction is dropped), or a missing loop variable (a compile error).
pub enum Enc {
    Text(Seq<char>),
    Malformed,
    Missing,
}

/// An index: a literal, or the current value of a loop variable.
pub open spec fn enc_index(e: Env, idx: Ast) -> Enc {
    match idx {
        Ast::Num(n) => Enc::Text(decimal(n)),
        Ast::ArrayIndex(n) => Enc::Text(decimal(n)),
        Ast::IntCall { name } => if e.iterators.contains_key(name) {
            Enc::Text(decimal(e.iterators[name] as int))
        } else {
            Enc::Missing
        },
        _ => Enc::Malformed,
    }
}

/// One operand, followed by a space.
pub open spec fn enc_operand(e: Env, a: Ast) -> Enc {
    match a {
        Ast::VariableCall { name } => Enc::Text(seq!['$'] + resolve(e, name) + seq![' ']),
        Ast::ArrayAccess { name: base, index } => match *base {
            Ast::VariableCall { name } => match enc_index(e, *index) {
                Enc::Text(t) => Enc::Text(seq!['$'] + resolve(e, name) + seq!['_'] + t + seq![' ']),
                other => other,
            },
            _ => Enc::Malformed,
        },
        Ast::ExternArg { idx } => match enc_index(e, *idx) {
            Enc::Text(t) => Enc::Text(seq!['?', '?'] + t + seq![' ']),
            other => other,
        },
        _ => Enc::Malformed,
    }
}

/// The first `n` operands; the first one that fails decides.
pub open spec fn operands_spec(e: Env, args: Seq<Ast>, n: int) -> Enc
    decreases n,
{
    if n <= 0 {
        Enc::Text(seq![])
    } else {
        match operands_spec(e, args, n - 1) {
            Enc::Text(t) => match enc_operand(e, args[n - 1]) {
                Enc::Text(u) => Enc::Text(t + u),
                other => other,
            },
            other => other,
        }
    }
}

/// A gate call: one line, the mnemonic, a space and the operands.
pub open spec fn gate_line_spec(e: Env, name: Seq<char>, args: Seq<Ast>) -> Option<Env> {
    match operands_spec(e, args, args.len() as int) {
        Enc::Text(t) => Some(emit(e, name + seq![' '] + t + seq!['\n'])),
        Enc::Malformed => Some(e),
        Enc::Missing => None,
    }
}

/// `return x;`: the temporary family takes a copy of `x`.
pub open spec fn return_spec(e: Env, v: Ast) -> Option<Env> {
    match v {
        Ast::VariableCall { name } => {
            let x = resolve(e, name);
            if e.var_info.contains_key(x) {
                let size = e.var_info[x].1 as int;
                Some(emit(e, qal_family(tmp(), size) + cpy_family(tmp(), x, size)))
            } else {
                None
            }
        },
        _ => None,
    }
}

/// `target = value;` for a name, copied from a variable or set from a
/// literal.
pub open spec fn assign_spec(e: Env, lval: Ast, value: Ast) -> Option<Env> {
    match lval {
        Ast::VariableCall { name } => {
            let target = resolve(e, name);
            match value {
                Ast::VariableCall { name: src } => {
                    let s = resolve(e, src);
                    if e.var_info.contains_key(s) {
                        Some(emit(e, cpy_family(target, s, e.var_info[s].1 as int)))
                    } else {
                        None
                    }
                },
                Ast::Num(n) => if 0 <= n <= i32::MAX {
                    let k = qubit_count(n);
                    if k == 1 {
                        Some(emit(e, set_line(target, bit(n, 0))))
                    } else {
                        Some(emit(e, set_family(target, n, k)))
                    }
                } else {
                    None
                },
                _ => None,
            }
        },
        _ => None,
    }
}

/// The parameter types and names of a function definition.
pub open spec fn params_info(ps: Seq<Ast>, n: int) -> Option<(Seq<Ast>, Seq<Seq<char>>)>
    decreases n,
{
    if n <= 0 {
        Some((seq![], seq![]))
    } else {
        match params_info(ps, n - 1) {
            Some((ts, ns)) => match ps[n - 1] {
                Ast::VariableDecl { name, value: _, type_: Some(t), token: _ } => Some(
                    (ts.push(*t), ns.push(name)),
                ),
                _ => None,
            },
            None => None,
        }
    }
}

/// A function definition is recorded; nothing is emitted.
pub open spec fn func_decl_spec(e: Env, name: Seq<char>, ret: Ast, ps: Seq<Ast>, body: Option<Box<Ast>>) -> Option<Env> {
    match params_info(ps, ps.len() as int) {
        Some((ts, ns)) => Some(
            Env {
                function_info: e.function_info.insert(name, (ts, ret)),
                function_args: e.function_args.insert(name, ns),
                functions: e.functions.insert(
                    name,
                    match body {
                        Some(b) => *b,
                        None => Ast::Void,
                    },
                ),
                ..e
            },
        ),
        None => None,
    }
}

/// The width of one element when iterating over an array of `t`.
pub open spec fn elem_width(t: Ast) -> usize {
    match t {
        Ast::Qbit => 1,
        Ast::Type { name: _, specifier } => match *specifier {
            Ast::Qbit => 1,
            _ => 0,
        },
        _ => 0,
    }
}

/// `e` with the loop variable `alias` bound to `k`.
pub open spec fn with_iterator(e: Env, alias: Seq<char>, k: int) -> Env {
    Env { iterators: e.iterators.insert(alias, k as i64), ..e }
}

/// `e` with `alias` standing for `target`.
pub open spec fn with_alias(e: Env, alias: Seq<char>, target: Seq<char>) -> Env {
    Env { aliases: e.aliases.insert(alias, target), ..e }
}

/// The statements, in order, from `e`.
pub open spec fn gen_nodes(d: nat, nodes: Seq<Ast>, e: Env) -> Option<Env>
    decreases d, nodes, 0int,
{
    if nodes.len() == 0 {
        Some(e)
    } else {
        match gen_node(d, nodes[0], e) {
            Some(e1) => gen_nodes(d, nodes.drop_first(), e1),
            None => None,
        }
    }
}

/// The body once for each `k` in `k..b`, with `alias` bound to `k`.
pub open spec fn unroll_range(d: nat, e: Env, alias: Seq<char>, body: Seq<Ast>, k: int, b: int) -> Option<Env>
    decreases d, body, b - k,
{
    if k >= b {
        Some(e)
    } else {
        match gen_nodes(d, body, with_iterator(e, alias, k)) {
            Some(e1) => unroll_range(d, e1, alias, body, k + 1, b),
            None => None,
        }
    }
}

/// The body once for each `k` in `k..s`, with `alias` standing for `arr_k`.
pub open spec fn unroll_array(d: nat, e: Env, alias: Seq<char>, arr: Seq<char>, body: Seq<Ast>, k: int, s: int) -> Option<Env>
    decreases d, body, s - k,
{
    if k >= s {
        Some(e)
    } else {
        match gen_nodes(d, body, with_alias(e, alias, indexed(arr, k))) {
            Some(e1) => unroll_array(d, e1, alias, arr, body, k + 1, s),
            None => None,
        }
    }
}

/// A `for` loop, unrolled.
pub open spec fn for_spec(d: nat, e: Env, alias: Seq<char>, container: Ast, body: Option<Box<Ast>>) -> Option<Env>
    decreases d, body, 0int,
{
    match container {
        Ast::Range { start, end } => match (*start, *end) {
            (Ast::Num(a), Ast::Num(b)) => match body {
                None => Some(e),
                Some(bx) => match *bx {
                    Ast::Block(stmts) => unroll_range(d, e, alias, stmts, a, b),
                    _ => None,
                },
            },
            _ => None,
        },
        Ast::VariableCall { name } => {
            let arr = resolve(e, name);
            if e.var_info.contains_key(arr) {
                match e.var_info[arr].2 {
                    Ast::ArrayType { type_: elem, size } => match *size {
                        Ast::Num(s) => match reserve(e, alias, elem_width(*elem), *elem, true) {
                            Some(e1) => match body {
                                None => Some(e1),
                                Some(bx) => match *bx {
                                    Ast::Block(stmts) => unroll_array(d, e1, alias, arr, stmts, 0, s),
                                    _ => None,
                                },
                            },
                            None => None,
                        },
                        _ => None,
                    },
                    _ => None,
                }
            } else {
                None
            }
        },
        _ => None,
    }
}

/// `let name = f(args);`: the arguments are bound, the body of `f` is
/// generated in place, and the returned family is copied into `name`.
pub open spec fn call_decl_spec(d: nat, e: Env, name: Seq<char>, f: Seq<char>, args: Seq<Ast>, token: int) -> Option<Env>
    decreases d, args, 0int,
{
    if d == 0 || !e.function_args.contains_key(f) || args.len() != e.function_args[f].len() {
        None
    } else {
        match bind_spec(e, e, e.function_args[f], args, args.len() as int) {
            Some(e1) => if e1.functions.contains_key(f) {
                match e1.functions[f] {
                    Ast::Block(stmts) => match gen_nodes((d - 1) as nat, stmts, e1) {
                        Some(e2) => finish_call_spec(e2, name, f, token),
                        None => None,
                    },
                    _ => None,
                }
            } else {
                None
            },
            None => None,
        }
    }
}

/// A declaration.
pub open spec fn decl_spec(d: nat, e: Env, name: Seq<char>, value: Option<Box<Ast>>, type_: Option<Box<Ast>>, token: int) -> Option<Env>
    decreases d, value, 1int,
{
    match type_ {
        Some(t) => alloc_decl_spec(e, name, *t, token),
        None => match value {
            None => None,
            Some(v) => match *v {
                Ast::Num(n) => decl_num_spec(e, name, n, token),
                Ast::VariableCall { name: src } => decl_copy_spec(e, name, src, token),
                Ast::FunctionCall { name: f, args } => call_decl_spec(d, e, name, f, args, token),
                _ => None,
            },
        },
    }
}

/// One statement.
pub open spec fn gen_node(d: nat, n: Ast, e: Env) -> Option<Env>
    decreases d, n, 2int,
{
    match n {
        Ast::VariableDecl { name, value, type_, token } => decl_spec(d, e, name, value, type_, token),
        Ast::FunctionDef { name, ret_type, in_type, body } => func_decl_spec(e, name, *ret_type, in_type, body),
        Ast::For { container, alias, body } => for_spec(d, e, alias, *container, body),
        Ast::Assignment { lval, value } => assign_spec(e, *lval, *value),
        Ast::GateCall { name, args } => gate_line_spec(e, name, args),
        Ast::Return(v) => return_spec(e, *v),
        _ => None,
    }
}

/// A whole program, or a block, from the empty environment.
pub open spec fn code_gen_spec(n: Ast) -> Option<Env> {
    match n {
        Ast::Program(nodes) => gen_nodes(MAX_INLINE_DEPTH as nat, nodes, empty_env()),
        Ast::Block(nodes) => gen_nodes(MAX_INLINE_DEPTH as nat, nodes, empty_env()),
        _ => None,
    }
}

} // verus!
