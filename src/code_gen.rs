//! The generator: walks the syntax tree, keeps the compile-time environment
//! and appends the instruction stream. Loops are unrolled and calls inlined;
//! each function is proved to do what `semantics` says.
use vstd::prelude::*;
use crate::emit::{
    push_cpy_family, push_decimal, push_fre_family, push_qal, push_qal_family, push_set_family,
    push_set_line, qubits_for,
};
use crate::grammar::CONST_KIND;
use crate::parser::{ASTNode, Ast, lemma_nodes_view_index, lemma_nodes_view_push, nodes_view, opt_view};
use crate::semantics::{
    Enc, Env, MAX_INLINE_DEPTH, alloc_decl_spec, bind_spec, call_decl_spec, code_gen_spec,
    decl_spec, for_spec, gen_node, gen_nodes, unroll_array, unroll_range, assign_spec, copy_in_spec, decl_copy_spec, decl_num_spec,
    enc_index, enc_operand, finish_call_spec, func_decl_spec, gate_line_spec,
    operands_spec, params_info, reserve, resolve, ret_size, return_spec,
};
use crate::table::Table;
use crate::text::{ends_with, starts_with};

verus! {

/// The compile-time environment and the program written so far.
#[derive(Debug)]
pub struct Comptime {
    pub program: String,
    pub functions: Table<ASTNode>,
    pub function_info: Table<(Vec<ASTNode>, ASTNode)>,
    pub function_args: Table<Vec<String>>,
    pub vars: Table<(usize, usize)>,
    pub var_info: Table<(bool, usize, ASTNode)>,
    pub iterators: Table<i64>,
    pub aliass: Table<String>,
    pub i: usize,
}

impl Comptime {
    pub open spec fn view(&self) -> Env {
        Env {
            program: self.program@,
            functions: self.functions@,
            function_info: self.function_info@,
            function_args: self.function_args@,
            vars: self.vars@,
            var_info: self.var_info@,
            iterators: self.iterators@,
            aliases: self.aliass@,
            i: self.i,
        }
    }

    /// The empty environment.
    pub fn new() -> (r: Comptime)
        ensures
            r@ == crate::semantics::empty_env(),
    {
        let r = Comptime {
            program: String::new(),
            functions: Table::new(),
            function_info: Table::new(),
            function_args: Table::new(),
            vars: Table::new(),
            var_info: Table::new(),
            iterators: Table::new(),
            aliass: Table::new(),
            i: 0,
        };
        assert(r@ == crate::semantics::empty_env());
        r
    }
}

/// The result `r` of a generator step that moved the environment to
/// `after` agrees with the specified outcome `s`.
pub open spec fn outcome(r: Result<(), String>, after: Env, s: Option<Env>) -> bool {
    match r {
        Ok(_) => s == Some(after),
        Err(m) => s is None && backend_error(m@),
    }
}

/// A message of the generator's stage.
pub open spec fn backend_error(m: Seq<char>) -> bool {
    starts_with(m, "BACKEND_ERROR: "@)
}

/// A statement kind the generator handles.
pub open spec fn is_statement(n: Ast) -> bool {
    n is VariableDecl || n is FunctionDef || n is For || n is Assignment || n is GateCall
        || n is Return
}

/// The container of a `for` can be unrolled from `e`: a range of literals,
/// or a variable (after alias lookup) of array type with a literal size.
pub open spec fn for_head_ok(e: Env, container: Ast) -> bool {
    match container {
        Ast::Range { start, end } => *start is Num && *end is Num,
        Ast::VariableCall { name } => {
            let arr = resolve(e, name);
            e.var_info.contains_key(arr) && (e.var_info[arr].2 matches Ast::ArrayType {
                type_: _,
                size,
            } && *size is Num)
        },
        _ => false,
    }
}

/// A generator message: `BACKEND_ERROR: ` and `what`.
fn backend_err(what: &str) -> (m: String)
    ensures
        backend_error(m@),
{
    let mut m = String::from_str("BACKEND_ERROR: ");
    let ghost head = m@;
    m.push_str(what);
    assert(m@.subrange(0, head.len() as int) =~= head);
    m
}

/// A generator message for a failed lookup: it ends with the missing key.
fn missing(what: &str, key: &String) -> (m: String)
    ensures
        backend_error(m@),
        ends_with(m@, key@),
{
    let mut m = backend_err(what);
    let ghost head = m@;
    m.push(' ');
    m.push_str(key.as_str());
    assert(m@.subrange(0, "BACKEND_ERROR: "@.len() as int) =~= head.subrange(0, "BACKEND_ERROR: "@.len() as int));
    assert(m@.subrange(m@.len() - key@.len(), m@.len() as int) =~= key@);
    m
}

// ---------------------------------------------------------------- copies

/// A copy of a node.
pub fn copy_node(n: &ASTNode) -> (r: ASTNode)
    ensures
        r@ == n@,
    decreases n, 0int,
{
    match n {
        ASTNode::Program(v) => ASTNode::Program(copy_nodes(v)),
        ASTNode::FunctionDef { name, ret_type, in_type, body } => ASTNode::FunctionDef {
            name: name.clone(),
            ret_type: Box::new(copy_node(ret_type)),
            in_type: copy_nodes(in_type),
            body: copy_opt(body),
        },
        ASTNode::VariableDecl { name, value, type_, token } => ASTNode::VariableDecl {
            name: name.clone(),
            value: copy_opt(value),
            type_: copy_opt(type_),
            token: *token,
        },
        ASTNode::Block(v) => ASTNode::Block(copy_nodes(v)),
        ASTNode::For { container, alias, body } => ASTNode::For {
            container: Box::new(copy_node(container)),
            alias: alias.clone(),
            body: copy_opt(body),
        },
        ASTNode::Return(v) => ASTNode::Return(Box::new(copy_node(v))),
        ASTNode::FunctionCall { name, args } => ASTNode::FunctionCall {
            name: name.clone(),
            args: copy_nodes(args),
        },
        ASTNode::GateCall { name, args } => ASTNode::GateCall { name: name.clone(), args: copy_nodes(args) },
        ASTNode::Struct { name, types } => ASTNode::Struct { name: name.clone(), types: copy_nodes(types) },
        ASTNode::ArrayIndex(k) => ASTNode::ArrayIndex(*k),
        ASTNode::ArrayAccess { name, index } => ASTNode::ArrayAccess {
            name: Box::new(copy_node(name)),
            index: Box::new(copy_node(index)),
        },
        ASTNode::Reference { value } => ASTNode::Reference { value: Box::new(copy_node(value)) },
        ASTNode::Dereference { value } => ASTNode::Dereference { value: Box::new(copy_node(value)) },
        ASTNode::Void => ASTNode::Void,
        ASTNode::Qbit => ASTNode::Qbit,
        ASTNode::Custom => ASTNode::Custom,
        ASTNode::Num(k) => ASTNode::Num(*k),
        ASTNode::Type { name, specifier } => ASTNode::Type {
            name: name.clone(),
            specifier: Box::new(copy_node(specifier)),
        },
        ASTNode::Range { start, end } => ASTNode::Range {
            start: Box::new(copy_node(start)),
            end: Box::new(copy_node(end)),
        },
        ASTNode::VariableCall { name } => ASTNode::VariableCall { name: name.clone() },
        ASTNode::Assignment { lval, value } => ASTNode::Assignment {
            lval: Box::new(copy_node(lval)),
            value: Box::new(copy_node(value)),
        },
        ASTNode::StructAccess { structure, member } => ASTNode::StructAccess {
            structure: Box::new(copy_node(structure)),
            member: member.clone(),
        },
        ASTNode::ArrayType { type_, size } => ASTNode::ArrayType {
            type_: Box::new(copy_node(type_)),
            size: Box::new(copy_node(size)),
        },
        ASTNode::ExternArg { idx } => ASTNode::ExternArg { idx: Box::new(copy_node(idx)) },
        ASTNode::IntCall { name } => ASTNode::IntCall { name: name.clone() },
        ASTNode::PointerType { type_ } => ASTNode::PointerType { type_: Box::new(copy_node(type_)) },
        ASTNode::Qdit => ASTNode::Qdit,
    }
}

/// A copy of a node sequence.
pub fn copy_nodes(v: &Vec<ASTNode>) -> (r: Vec<ASTNode>)
    ensures
        nodes_view(r@) == nodes_view(v@),
    decreases v, 1int,
{
    let mut r: Vec<ASTNode> = Vec::new();
    let mut k: usize = 0;
    assert(nodes_view(r@) =~= nodes_view(v@.subrange(0, 0)));
    while k < v.len()
        invariant
            k <= v.len(),
            nodes_view(r@) == nodes_view(v@.subrange(0, k as int)),
        decreases v.len() - k,
    {
        let x = copy_node(&v[k]);
        proof {
            lemma_nodes_view_push(r@, x);
            assert(v@.subrange(0, k + 1).subrange(0, k as int) =~= v@.subrange(0, k as int));
        }
        r.push(x);
        k += 1;
    }
    assert(v@.subrange(0, v.len() as int) =~= v@);
    r
}

fn copy_opt(o: &Option<Box<ASTNode>>) -> (r: Option<Box<ASTNode>>)
    ensures
        opt_view(r) == opt_view(*o),
    decreases o, 1int,
{
    match o {
        Some(b) => Some(Box::new(copy_node(b))),
        None => None,
    }
}

fn copy_strings(v: &Vec<String>) -> (r: Vec<String>)
    ensures
        r.deep_view() == v.deep_view(),
{
    let mut r: Vec<String> = Vec::new();
    let mut k: usize = 0;
    while k < v.len()
        invariant
            k <= v.len(),
            r.len() == k,
            forall|j: int| 0 <= j < k ==> (#[trigger] r@[j])@ == v@[j]@,
        decreases v.len() - k,
    {
        r.push(v[k].clone());
        k += 1;
    }
    assert(r.deep_view() =~= v.deep_view());
    r
}

// ---------------------------------------------------------------- names

/// `n` after one step of alias lookup.
fn resolve_name(c: &Comptime, n: &String) -> (r: String)
    ensures
        r@ == resolve(c@, n@),
{
    match c.aliass.get(n) {
        Some(a) => a.clone(),
        None => n.clone(),
    }
}

/// Reserves `size` qubits for `name`.
fn reserve_in(c: &mut Comptime, name: String, size: usize, t: ASTNode, is_const: bool) -> (r: Result<(), String>)
    ensures
        outcome(r, final(c)@, reserve(old(c)@, name@, size, t@, is_const)),
        final(c).i >= old(c).i,
        r is Err ==> final(c)@ == old(c)@,
        r is Ok ==> final(c).i == old(c).i + size,
{
    if c.i > usize::MAX - size {
        return Err(backend_err("out of qubits"));
    }
    let start = c.i;
    let end = c.i + size;
    c.vars.insert(name.clone(), (start, 0));
    c.var_info.insert(name, (is_const, size, t));
    c.i = end;
    Ok(())
}

// ---------------------------------------------------------------- declarations

/// `let name: t;`: reserves and allocates the qubits of `t`, an array of a
/// literal size or a single qubit.
pub fn gen_var_alloc(name: &String, t: &ASTNode, token: i32, c: &mut Comptime) -> (r: Result<(), String>)
    ensures
        outcome(r, final(c)@, alloc_decl_spec(old(c)@, name@, t@, token as int)),
        final(c).i >= old(c).i,
        r is Err ==> final(c)@ == old(c)@,
{
    proof {
        reveal_with_fuel(ASTNode::view, 2);
    }
    let is_const = token == CONST_KIND;
    match t {
        ASTNode::ArrayType { type_: _, size } => match &**size {
            ASTNode::Num(s) => {
                if *s < 0 {
                    return Err(backend_err("negative array size"));
                }
                let n = *s as usize;
                match reserve_in(c, name.clone(), n, copy_node(t), is_const) {
                    Ok(()) => {},
                    Err(e) => return Err(e),
                }
                push_qal_family(&mut c.program, name, n);
                Ok(())
            },
            _ => Err(backend_err("array size must be a literal")),
        },
        ASTNode::Qbit => {
            match reserve_in(c, name.clone(), 1, ASTNode::Qbit, is_const) {
                Ok(()) => {},
                Err(e) => return Err(e),
            }
            push_qal(&mut c.program, name);
            Ok(())
        },
        _ => Err(backend_err("unsupported type in declaration")),
    }
}

/// `let name = n;`: `qubit_count(n)` qubits set to the bits of `n`, least
/// significant first.
pub fn gen_var_decl_num(name: &String, n: i32, token: i32, c: &mut Comptime) -> (r: Result<(), String>)
    ensures
        outcome(r, final(c)@, decl_num_spec(old(c)@, name@, n as int, token as int)),
        final(c).i >= old(c).i,
        r is Err ==> final(c)@ == old(c)@,
{
    proof {
        reveal_with_fuel(ASTNode::view, 3);
    }
    if n < 0 {
        return Err(backend_err("integer literal out of range"));
    }
    let k = qubits_for(n as u32);
    let t = ASTNode::ArrayType { type_: Box::new(ASTNode::Qbit), size: Box::new(ASTNode::Num(n)) };
    match reserve_in(c, name.clone(), k, t, token == CONST_KIND) {
        Ok(()) => {},
        Err(e) => return Err(e),
    }
    let ghost mid = c@;
    push_qal_family(&mut c.program, name, k);
    push_set_family(&mut c.program, name, n as u32, k);
    assert(c@.program =~= mid.program + (crate::emit::qal_family(name@, k as int) + crate::emit::set_family(name@, n as int, k as int)));
    Ok(())
}

/// Allocates `name` and copies the temporary family into it, then releases
/// the temporaries.
fn copy_in(c: &mut Comptime, name: &String, size: usize, t: ASTNode, token: i32) -> (r: Result<(), String>)
    ensures
        outcome(r, final(c)@, copy_in_spec(old(c)@, name@, size, t@, token as int)),
        final(c).i >= old(c).i,
        r is Err ==> final(c)@ == old(c)@,
{
    match reserve_in(c, name.clone(), size, t, token == CONST_KIND) {
        Ok(()) => {},
        Err(e) => return Err(e),
    }
    let ghost mid = c@;
    let tmp_name = String::from_str("TMP");
    push_qal_family(&mut c.program, name, size);
    push_cpy_family(&mut c.program, name, &tmp_name, size);
    push_fre_family(&mut c.program, &tmp_name, size);
    assert(c@.program =~= mid.program + (crate::emit::qal_family(name@, size as int) + crate::emit::cpy_family(name@, crate::emit::tmp(), size as int) + crate::emit::fre_family(crate::emit::tmp(), size as int)));
    Ok(())
}

/// `let name = src;`: a variable of the size and type of `src`, copied
/// from the temporary family.
pub fn gen_var_decl_cpy(name: &String, src: &String, token: i32, c: &mut Comptime) -> (r: Result<(), String>)
    ensures
        outcome(r, final(c)@, decl_copy_spec(old(c)@, name@, src@, token as int)),
        final(c).i >= old(c).i,
        r is Err ==> final(c)@ == old(c)@,
        !old(c)@.var_info.contains_key(resolve(old(c)@, src@)) ==> (r matches Err(m) && ends_with(
            m@,
            resolve(old(c)@, src@),
        )),
{
    let s = resolve_name(c, src);
    let (size, t) = match c.var_info.get(&s) {
        Some(info) => (info.1, copy_node(&info.2)),
        None => return Err(missing("unknown variable", &s)),
    };
    copy_in(c, name, size, t, token)
}

/// After a call has been inlined: `name` is allocated by the callee's return
/// type and takes the returned family.
pub fn func_cpy(name: &String, f: &String, token: i32, c: &mut Comptime) -> (r: Result<(), String>)
    ensures
        outcome(r, final(c)@, finish_call_spec(old(c)@, name@, f@, token as int)),
        final(c).i >= old(c).i,
        r is Err ==> final(c)@ == old(c)@,
        !old(c)@.function_info.contains_key(f@) ==> (r matches Err(m) && ends_with(m@, f@)),
{
    proof {
        reveal_with_fuel(ASTNode::view, 2);
    }
    let ret = match c.function_info.get(f) {
        Some(info) => copy_node(&info.1),
        None => return Err(missing("unknown function", f)),
    };
    let size: usize = match &ret {
        ASTNode::Qbit => 1,
        ASTNode::ArrayType { type_: _, size } => match &**size {
            ASTNode::Num(s) => if *s >= 0 {
                *s as usize
            } else {
                return Err(backend_err("negative return size"));
            },
            _ => return Err(backend_err("return size must be a literal")),
        },
        _ => return Err(backend_err("unsupported return type")),
    };
    assert(ret_size(ret@) == Some(size));
    copy_in(c, name, size, ret, token)
}

// ---------------------------------------------------------------- statements

/// `return x;`: the temporary family `TMP_0 ..` is allocated and takes a
/// copy of `x`.
pub fn generate_return(v: &ASTNode, c: &mut Comptime) -> (r: Result<(), String>)
    ensures
        outcome(r, final(c)@, return_spec(old(c)@, v@)),
        final(c).i == old(c).i,
        r is Err ==> final(c)@ == old(c)@,
        v@ matches Ast::VariableCall { name } ==> (!old(c)@.var_info.contains_key(resolve(old(c)@, name))
            ==> (r matches Err(m) && ends_with(m@, resolve(old(c)@, name)))),
{
    match v {
        ASTNode::VariableCall { name } => {
            let x = resolve_name(c, name);
            let size = match c.var_info.get(&x) {
                Some(info) => info.1,
                None => return Err(missing("unknown variable", &x)),
            };
            let ghost before = c@;
            let tmp_name = String::from_str("TMP");
            push_qal_family(&mut c.program, &tmp_name, size);
            push_cpy_family(&mut c.program, &tmp_name, &x, size);
            assert(c@.program =~= before.program + (crate::emit::qal_family(crate::emit::tmp(), size as int) + crate::emit::cpy_family(crate::emit::tmp(), x@, size as int)));
            Ok(())
        },
        _ => Err(backend_err("Expected ASTNode::VariableCall")),
    }
}

/// `target = value;`: a copy from a variable, or the bits of a literal.
pub fn generate_assignment(lval: &ASTNode, value: &ASTNode, c: &mut Comptime) -> (r: Result<(), String>)
    ensures
        outcome(r, final(c)@, assign_spec(old(c)@, lval@, value@)),
        final(c).i == old(c).i,
        r is Err ==> final(c)@ == old(c)@,
        value@ matches Ast::VariableCall { name } ==> (lval@ is VariableCall
            && !old(c)@.var_info.contains_key(resolve(old(c)@, name)) ==> (r matches Err(m)
            && ends_with(m@, resolve(old(c)@, name)))),
{
    let target = match lval {
        ASTNode::VariableCall { name } => resolve_name(c, name),
        _ => return Err(backend_err("Expected ASTNode::VariableCall")),
    };
    let ghost before = c@;
    match value {
        ASTNode::VariableCall { name } => {
            let s = resolve_name(c, name);
            let size = match c.var_info.get(&s) {
                Some(info) => info.1,
                None => return Err(missing("unknown variable", &s)),
            };
            push_cpy_family(&mut c.program, &target, &s, size);
            Ok(())
        },
        ASTNode::Num(n) => {
            if *n < 0 {
                return Err(backend_err("integer literal out of range"));
            }
            let k = qubits_for(*n as u32);
            if k == 1 {
                push_set_line(&mut c.program, &target, *n % 2 == 1);
                proof {
                    reveal_with_fuel(crate::emit::shr, 1);
                }
            } else {
                push_set_family(&mut c.program, &target, *n as u32, k);
            }
            Ok(())
        },
        _ => Err(backend_err("Expected ASTNode::VariableCall")),
    }
}

proof fn lemma_params_none(ps: Seq<Ast>, k: int, n: int)
    requires
        0 <= k <= n,
        params_info(ps, k) is None,
    ensures
        params_info(ps, n) is None,
    decreases n - k,
{
    if k < n {
        lemma_params_none(ps, k + 1, n);
    }
}

/// A recorded function definition: parameter types and names, return type
/// and body (`Void` for an extern declaration). Nothing is emitted.
pub fn gen_func_decl(name: &String, ret_type: &ASTNode, in_type: &Vec<ASTNode>, body: &Option<Box<ASTNode>>, c: &mut Comptime) -> (r: Result<(), String>)
    ensures
        outcome(r, final(c)@, func_decl_spec(old(c)@, name@, ret_type@, nodes_view(in_type@), opt_view(*body))),
        final(c).i == old(c).i,
        r is Err ==> final(c)@ == old(c)@,
{
    proof {
        lemma_nodes_view_index(in_type@);
        reveal_with_fuel(opt_view, 2);
    }
    let ghost ps = nodes_view(in_type@);
    let mut types: Vec<ASTNode> = Vec::new();
    let mut names: Vec<String> = Vec::new();
    let mut k: usize = 0;
    while k < in_type.len()
        invariant
            k <= in_type.len(),
            ps == nodes_view(in_type@),
            ps.len() == in_type.len(),
            forall|j: int| 0 <= j < in_type.len() ==> ps[j] == (#[trigger] in_type@[j])@,
            params_info(ps, k as int) == Some((types.deep_view(), names.deep_view())),
        decreases in_type.len() - k,
    {
        match &in_type[k] {
            ASTNode::VariableDecl { name: pn, value: _, type_: Some(t), token: _ } => {
                let ghost tv = types.deep_view();
                let ghost nv = names.deep_view();
                let tc = copy_node(t);
                types.push(tc);
                names.push(pn.clone());
                assert(types.deep_view() =~= tv.push(t@));
                assert(names.deep_view() =~= nv.push(pn@));
                assert(opt_view(Some(*t)) == Some(Box::new(t@)));
                assert(ps[k as int] matches Ast::VariableDecl { name: nn, value: _, type_: Some(tt), token: _ } && nn == pn@ && *tt == t@);
            },
            _ => {
                proof {
                    assert(params_info(ps, k + 1) is None);
                    lemma_params_none(ps, k + 1, ps.len() as int);
                }
                return Err(backend_err("Expected ASTNode::VariableDecl"));
            },
        }
        k += 1;
    }
    c.function_info.insert(name.clone(), (types, copy_node(ret_type)));
    c.function_args.insert(name.clone(), names);
    let b = match body {
        Some(b) => copy_node(b),
        None => ASTNode::Void,
    };
    c.functions.insert(name.clone(), b);
    Ok(())
}

// ---------------------------------------------------------------- gates

/// Appends the text of an index: a literal, or the value of a loop
/// variable. `Ok(false)` for a malformed index; `Err` for a loop variable
/// that is not bound.
fn encode_index(idx: &ASTNode, c: &Comptime, out: &mut String) -> (r: Result<bool, String>)
    ensures
        match enc_index(c@, idx@) {
            Enc::Text(t) => r matches Ok(true) && final(out)@ == old(out)@ + t,
            Enc::Malformed => r matches Ok(false),
            Enc::Missing => r matches Err(m) && backend_error(m@),
        },
        idx@ matches Ast::IntCall { name } ==> (!c@.iterators.contains_key(name) ==> (r matches Err(m)
            && ends_with(m@, name))),
{
    match idx {
        ASTNode::Num(n) => {
            push_decimal(out, *n as i64);
            Ok(true)
        },
        ASTNode::ArrayIndex(n) => {
            push_decimal(out, *n as i64);
            Ok(true)
        },
        ASTNode::IntCall { name } => match c.iterators.get(name) {
            Some(v) => {
                push_decimal(out, *v);
                Ok(true)
            },
            None => Err(missing("unknown loop variable", name)),
        },
        _ => Ok(false),
    }
}

/// Appends the text of one operand and a space: see `enc_operand`.
fn encode_operand(a: &ASTNode, c: &Comptime, out: &mut String) -> (r: Result<bool, String>)
    ensures
        match enc_operand(c@, a@) {
            Enc::Text(t) => r matches Ok(true) && final(out)@ == old(out)@ + t,
            Enc::Malformed => r matches Ok(false),
            Enc::Missing => r matches Err(m) && backend_error(m@),
        },
{
    proof {
        reveal_with_fuel(ASTNode::view, 2);
    }
    match a {
        ASTNode::VariableCall { name } => {
            let n = resolve_name(c, name);
            out.push('$');
            out.push_str(n.as_str());
            out.push(' ');
            assert(out@ =~= old(out)@ + (seq!['$'] + n@ + seq![' ']));
            Ok(true)
        },
        ASTNode::ArrayAccess { name: base, index } => match &**base {
            ASTNode::VariableCall { name } => {
                let n = resolve_name(c, name);
                out.push('$');
                out.push_str(n.as_str());
                out.push('_');
                let ghost mid = out@;
                match encode_index(index, c, out) {
                    Ok(true) => {
                        out.push(' ');
                        assert(out@ =~= old(out)@ + (seq!['$'] + n@ + seq!['_'] + out@.subrange(mid.len() as int, out@.len() - 1) + seq![' ']));
                        Ok(true)
                    },
                    other => other,
                }
            },
            _ => Ok(false),
        },
        ASTNode::ExternArg { idx } => {
            out.push('?');
            out.push('?');
            let ghost mid = out@;
            match encode_index(idx, c, out) {
                Ok(true) => {
                    out.push(' ');
                    assert(out@ =~= old(out)@ + (seq!['?', '?'] + out@.subrange(mid.len() as int, out@.len() - 1) + seq![' ']));
                    Ok(true)
                },
                other => other,
            }
        },
        _ => Ok(false),
    }
}

proof fn lemma_operands_stuck(e: Env, args: Seq<Ast>, k: int, n: int)
    requires
        0 <= k <= n,
        !(operands_spec(e, args, k) is Text),
    ensures
        operands_spec(e, args, n) == operands_spec(e, args, k),
    decreases n - k,
{
    if k < n {
        lemma_operands_stuck(e, args, k, n - 1);
    }
}

/// The operands of a gate call, each followed by a space: `Ok(None)` when
/// one is malformed, `Err` when a loop variable is not bound.
pub fn fuck_join(args: &Vec<ASTNode>, c: &Comptime) -> (r: Result<Option<String>, String>)
    ensures
        match operands_spec(c@, nodes_view(args@), args.len() as int) {
            Enc::Text(t) => r matches Ok(Some(s)) && s@ == t,
            Enc::Malformed => r matches Ok(None),
            Enc::Missing => r matches Err(m) && backend_error(m@),
        },
{
    proof {
        lemma_nodes_view_index(args@);
    }
    let ghost v = nodes_view(args@);
    let mut out = String::new();
    let mut k: usize = 0;
    while k < args.len()
        invariant
            k <= args.len(),
            v == nodes_view(args@),
            v.len() == args.len(),
            forall|j: int| 0 <= j < args.len() ==> v[j] == (#[trigger] args@[j])@,
            operands_spec(c@, v, k as int) == Enc::Text(out@),
        decreases args.len() - k,
    {
        assert(v[k as int] == args@[k as int]@);
        match encode_operand(&args[k], c, &mut out) {
            Ok(true) => {},
            Ok(false) => {
                proof {
                    lemma_operands_stuck(c@, v, k + 1, v.len() as int);
                }
                return Ok(None);
            },
            Err(e) => {
                proof {
                    lemma_operands_stuck(c@, v, k + 1, v.len() as int);
                }
                return Err(e);
            },
        }
        k += 1;
    }
    Ok(Some(out))
}

/// A gate call: one line with the mnemonic and the operands. A malformed
/// operand drops the line.
pub fn generate_gate_call(name: &String, args: &Vec<ASTNode>, c: &mut Comptime) -> (r: Result<(), String>)
    ensures
        outcome(r, final(c)@, gate_line_spec(old(c)@, name@, nodes_view(args@))),
        final(c).i == old(c).i,
        r is Err ==> final(c)@ == old(c)@,
{
    proof {
        lemma_nodes_view_index(args@);
    }
    match fuck_join(args, c) {
        Ok(Some(t)) => {
            let ghost before = c@;
            c.program.push_str(name.as_str());
            c.program.push(' ');
            c.program.push_str(t.as_str());
            c.program.push('\n');
            assert(c@.program =~= before.program + (name@ + seq![' '] + t@ + seq!['\n']));
            Ok(())
        },
        Ok(None) => Ok(()),
        Err(e) => Err(e),
    }
}

// ---------------------------------------------------------------- inlining

proof fn lemma_bind_fails(base: Env, e: Env, ps: Seq<Seq<char>>, args: Seq<Ast>, j: int, n: int)
    requires
        0 <= j < n <= args.len(),
        !(args[j] is VariableCall),
    ensures
        bind_spec(base, e, ps, args, n) is None,
    decreases n,
{
    if n > j + 1 {
        lemma_bind_fails(base, e, ps, args, j, n - 1);
    }
}

/// `let name = f(args);`: binds the parameters of `f` to the arguments,
/// generates the body of `f` in place, and copies the returned family into
/// `name`.
pub fn gen_func_call(name: &String, f: &String, args: &Vec<ASTNode>, token: i32, c: &mut Comptime, d: usize) -> (r: Result<(), String>)
    ensures
        outcome(r, final(c)@, call_decl_spec(d as nat, old(c)@, name@, f@, nodes_view(args@), token as int)),
        final(c).i >= old(c).i,
        d > 0 && !old(c)@.function_args.contains_key(f@) ==> (r matches Err(m) && ends_with(m@, f@)
            && final(c)@ == old(c)@),
    decreases d, args, 2int,
{
    proof {
        lemma_nodes_view_index(args@);
    }
    let ghost base = c@;
    let ghost av = nodes_view(args@);
    if d == 0 {
        return Err(backend_err("calls nested too deeply"));
    }
    let ps = match c.function_args.get(f) {
        Some(p) => copy_strings(p),
        None => return Err(missing("unknown function", f)),
    };
    let ghost psv = ps.deep_view();
    if args.len() != ps.len() {
        return Err(backend_err("wrong number of arguments"));
    }
    let mut targets: Vec<String> = Vec::new();
    let mut k: usize = 0;
    while k < args.len()
        invariant
            k <= args.len(),
            c@ == base,
            d > 0,
            base.function_args.contains_key(f@),
            base.function_args[f@] == psv,
            psv == ps.deep_view(),
            psv.len() == ps.len() == args.len(),
            av == nodes_view(args@),
            av.len() == args.len(),
            forall|j: int| 0 <= j < args.len() ==> av[j] == (#[trigger] args@[j])@,
            targets.len() == k,
            forall|j: int|
                0 <= j < k ==> ((#[trigger] av[j]) matches Ast::VariableCall { name: n } && targets@[j]@
                    == resolve(base, n)),
        decreases args.len() - k,
    {
        match &args[k] {
            ASTNode::VariableCall { name: n } => {
                targets.push(resolve_name(c, n));
            },
            _ => {
                proof {
                    assert(!(av[k as int] is VariableCall));
                    lemma_bind_fails(base, base, psv, av, k as int, av.len() as int);
                }
                return Err(backend_err("arguments must be variables"));
            },
        }
        k += 1;
    }
    k = 0;
    while k < args.len()
        invariant
            k <= args.len() == ps.len() == targets.len(),
            av == nodes_view(args@),
            av.len() == args.len(),
            psv == ps.deep_view(),
            forall|j: int|
                0 <= j < args.len() ==> ((#[trigger] av[j]) matches Ast::VariableCall { name: n } && targets@[j]@
                    == resolve(base, n)),
            bind_spec(base, base, psv, av, k as int) == Some(c@),
            c.i == base.i,
        decreases args.len() - k,
    {
        assert(av[k as int] matches Ast::VariableCall { name: n } && targets@[k as int]@ == resolve(base, n));
        c.aliass.insert(ps[k].clone(), targets[k].clone());
        k += 1;
    }
    let body = match c.functions.get(f) {
        Some(b) => copy_node(b),
        None => return Err(missing("unknown function", f)),
    };
    match &body {
        ASTNode::Block(stmts) => {
            match code_gen_nodes(stmts, c, d - 1) {
                Ok(()) => {},
                Err(e) => return Err(e),
            }
        },
        _ => return Err(backend_err("Expected ASTNode::Block")),
    }
    func_cpy(name, f, token, c)
}

// ---------------------------------------------------------------- dispatch

/// A declaration without a type: deduced from the value, a literal, a
/// variable or a call.
pub fn generate_var_decl_td(name: &String, value: &ASTNode, token: i32, c: &mut Comptime, d: usize) -> (r: Result<(), String>)
    ensures
        outcome(r, final(c)@, decl_spec(d as nat, old(c)@, name@, Some(Box::new(value@)), None, token as int)),
        final(c).i >= old(c).i,
        r is Err && !(value@ is FunctionCall) ==> final(c)@ == old(c)@,
    decreases d, value, 3int,
{
    match value {
        ASTNode::Num(n) => gen_var_decl_num(name, *n, token, c),
        ASTNode::VariableCall { name: src } => gen_var_decl_cpy(name, src, token, c),
        ASTNode::FunctionCall { name: f, args } => gen_func_call(name, f, args, token, c, d),
        _ => Err(backend_err("unsupported value in declaration")),
    }
}

/// A declaration: allocated by its type, or deduced from its value.
pub fn generate_var_decl(node: &ASTNode, c: &mut Comptime, d: usize) -> (r: Result<(), String>)
    ensures
        outcome(
            r,
            final(c)@,
            match node@ {
                Ast::VariableDecl { name, value, type_, token } => decl_spec(d as nat, old(c)@, name, value, type_, token),
                _ => None,
            },
        ),
        final(c).i >= old(c).i,
        r is Err && !(node@ matches Ast::VariableDecl { name: _, value: Some(v), type_: None, token: _ }
            && *v is FunctionCall) ==> final(c)@ == old(c)@,
    decreases d, node, 4int,
{
    proof {
        reveal_with_fuel(opt_view, 2);
        assert(opt_view(None) == None::<Box<Ast>>);
    }
    match node {
        ASTNode::VariableDecl { name, value, type_, token } => {
            assert(node@ == Ast::VariableDecl { name: name@, value: opt_view(*value), type_: opt_view(*type_), token: *token as int });
            match type_ {
                Some(t) => {
                    assert(opt_view(*type_) == Some(Box::new(t@)));
                    gen_var_alloc(name, t, *token, c)
                },
                None => match value {
                    None => Err(backend_err("a declaration needs a type or a value")),
                    Some(v) => {
                        assert(opt_view(*value) == Some(Box::new(v@)));
                        generate_var_decl_td(name, v, *token, c, d)
                    },
                },
            }
        },
        _ => Err(backend_err("Expected ASTNode::VariableDecl")),
    }
}

/// A `for` over a range: the body once for each value, with the loop
/// variable bound to it.
pub fn gen_it_for(alias: &String, a: i32, b: i32, stmts: &Vec<ASTNode>, c: &mut Comptime, d: usize) -> (r: Result<(), String>)
    ensures
        outcome(r, final(c)@, unroll_range(d as nat, old(c)@, alias@, nodes_view(stmts@), a as int, b as int)),
        final(c).i >= old(c).i,
    decreases d, stmts, 3int,
{
    let ghost body = nodes_view(stmts@);
    let mut k: i64 = a as i64;
    while k < b as i64
        invariant
            a <= k,
            k <= b || k == a,
            body == nodes_view(stmts@),
            unroll_range(d as nat, c@, alias@, body, k as int, b as int) == unroll_range(d as nat, old(c)@, alias@, body, a as int, b as int),
            c.i >= old(c).i,
        decreases b - k,
    {
        c.iterators.insert(alias.clone(), k);
        match code_gen_nodes(stmts, c, d) {
            Ok(()) => {},
            Err(e) => return Err(e),
        }
        k += 1;
    }
    Ok(())
}

/// A `for` over an array variable: the loop variable gets a slot of the
/// element's width, then the body runs once for each element, with the loop
/// variable standing for that element.
pub fn gen_for_array(alias: &String, name: &String, body: &Option<Box<ASTNode>>, c: &mut Comptime, d: usize) -> (r: Result<(), String>)
    ensures
        outcome(r, final(c)@, for_spec(d as nat, old(c)@, alias@, Ast::VariableCall { name: name@ }, opt_view(*body))),
        final(c).i >= old(c).i,
        !for_head_ok(old(c)@, Ast::VariableCall { name: name@ }) ==> r is Err && final(c)@ == old(c)@,
        !old(c)@.var_info.contains_key(resolve(old(c)@, name@)) ==> (r matches Err(m) && ends_with(
            m@,
            resolve(old(c)@, name@),
        )),
    decreases d, body, 3int,
{
    proof {
        reveal_with_fuel(ASTNode::view, 2);
        reveal_with_fuel(opt_view, 2);
    }
    let arr = resolve_name(c, name);
    let t = match c.var_info.get(&arr) {
        Some(info) => copy_node(&info.2),
        None => return Err(missing("unknown variable", &arr)),
    };
    let (elem, s) = match &t {
        ASTNode::ArrayType { type_, size } => match &**size {
            ASTNode::Num(s) => (copy_node(type_), *s),
            _ => return Err(backend_err("Expected ASTNode::Num")),
        },
        _ => return Err(backend_err("Expected ASTNode::ArrayType")),
    };
    let width: usize = match &elem {
        ASTNode::Qbit => 1,
        ASTNode::Type { name: _, specifier } => match &**specifier {
            ASTNode::Qbit => 1,
            _ => 0,
        },
        _ => 0,
    };
    assert(width == crate::semantics::elem_width(elem@));
    match reserve_in(c, alias.clone(), width, elem, true) {
        Ok(()) => {},
        Err(e) => return Err(e),
    }
    match body {
        None => Ok(()),
        Some(bx) => match &**bx {
            ASTNode::Block(stmts) => unroll_elements(alias, &arr, s, stmts, c, d),
            _ => Err(backend_err("Expected ASTNode::Block")),
        },
    }
}

/// The body once for each of the `s` elements of `arr`, with the loop
/// variable standing for the element.
fn unroll_elements(alias: &String, arr: &String, s: i32, stmts: &Vec<ASTNode>, c: &mut Comptime, d: usize) -> (r: Result<(), String>)
    ensures
        outcome(r, final(c)@, unroll_array(d as nat, old(c)@, alias@, arr@, nodes_view(stmts@), 0, s as int)),
        final(c).i >= old(c).i,
    decreases d, stmts, 3int,
{
    let ghost bv = nodes_view(stmts@);
    let mut k: i32 = 0;
    while k < s
        invariant
            0 <= k,
            k <= s || k == 0,
            bv == nodes_view(stmts@),
            unroll_array(d as nat, c@, alias@, arr@, bv, k as int, s as int) == unroll_array(d as nat, old(c)@, alias@, arr@, bv, 0, s as int),
            c.i >= old(c).i,
        decreases s - k,
    {
        let mut elem_name = String::new();
        crate::emit::push_indexed(&mut elem_name, arr, k as usize);
        assert(elem_name@ =~= crate::emit::indexed(arr@, k as int));
        c.aliass.insert(alias.clone(), elem_name);
        match code_gen_nodes(stmts, c, d) {
            Ok(()) => {},
            Err(e) => return Err(e),
        }
        k += 1;
    }
    Ok(())
}

/// A `for` loop: over a range of literals, or over an array variable.
pub fn generate_for(alias: &String, container: &ASTNode, body: &Option<Box<ASTNode>>, c: &mut Comptime, d: usize) -> (r: Result<(), String>)
    ensures
        outcome(r, final(c)@, for_spec(d as nat, old(c)@, alias@, container@, opt_view(*body))),
        final(c).i >= old(c).i,
        !for_head_ok(old(c)@, container@) ==> r is Err && final(c)@ == old(c)@,
    decreases d, body, 4int,
{
    proof {
        reveal_with_fuel(ASTNode::view, 2);
        reveal_with_fuel(opt_view, 2);
    }
    match container {
        ASTNode::Range { start, end } => match (&**start, &**end) {
            (ASTNode::Num(a), ASTNode::Num(b)) => match body {
                None => Ok(()),
                Some(bx) => match &**bx {
                    ASTNode::Block(stmts) => gen_it_for(alias, *a, *b, stmts, c, d),
                    _ => Err(backend_err("Expected ASTNode::Block")),
                },
            },
            _ => Err(backend_err("Expected ASTNode::Num")),
        },
        ASTNode::VariableCall { name } => gen_for_array(alias, name, body, c, d),
        _ => Err(backend_err("Expected a range or an array")),
    }
}

/// One statement.
pub fn code_gen_node(node: &ASTNode, c: &mut Comptime, d: usize) -> (r: Result<(), String>)
    ensures
        outcome(r, final(c)@, gen_node(d as nat, node@, old(c)@)),
        final(c).i >= old(c).i,
        !is_statement(node@) ==> r is Err && final(c)@ == old(c)@,
    decreases d, node, 5int,
{
    match node {
        ASTNode::VariableDecl { .. } => generate_var_decl(node, c, d),
        ASTNode::FunctionDef { name, ret_type, in_type, body } => gen_func_decl(name, ret_type, in_type, body, c),
        ASTNode::For { container, alias, body } => generate_for(alias, container, body, c, d),
        ASTNode::Assignment { lval, value } => generate_assignment(lval, value, c),
        ASTNode::GateCall { name, args } => generate_gate_call(name, args, c),
        ASTNode::Return(v) => generate_return(v, c),
        _ => Err(backend_err("unsupported statement")),
    }
}

/// The statements, in order; the first error stops the walk.
pub fn code_gen_nodes(nodes: &Vec<ASTNode>, c: &mut Comptime, d: usize) -> (r: Result<(), String>)
    ensures
        outcome(r, final(c)@, gen_nodes(d as nat, nodes_view(nodes@), old(c)@)),
        final(c).i >= old(c).i,
    decreases d, nodes, 2int,
{
    proof {
        lemma_nodes_view_index(nodes@);
    }
    let ghost v = nodes_view(nodes@);
    let mut k: usize = 0;
    assert(v.subrange(0, v.len() as int) =~= v);
    while k < nodes.len()
        invariant
            k <= nodes.len(),
            v == nodes_view(nodes@),
            v.len() == nodes.len(),
            forall|j: int| 0 <= j < nodes.len() ==> v[j] == (#[trigger] nodes@[j])@,
            gen_nodes(d as nat, v.subrange(k as int, v.len() as int), c@) == gen_nodes(d as nat, v, old(c)@),
            c.i >= old(c).i,
        decreases nodes.len() - k,
    {
        let ghost rest = v.subrange(k as int, v.len() as int);
        assert(rest[0] == nodes@[k as int]@);
        assert(rest.drop_first() =~= v.subrange(k + 1, v.len() as int));
        match code_gen_node(&nodes[k], c, d) {
            Ok(()) => {},
            Err(e) => return Err(e),
        }
        k += 1;
    }
    Ok(())
}

/// Generates a program (or a block) from an empty environment. The result
/// holds the instruction stream in `program`.
pub fn code_gen(ast: ASTNode) -> (r: Result<Comptime, String>)
    ensures
        match r {
            Ok(c) => code_gen_spec(ast@) == Some(c@) && crate::laws::env_wf(c@),
            Err(m) => code_gen_spec(ast@) is None && if ast@ is Program || ast@ is Block {
                backend_error(m@)
            } else {
                starts_with(m@, "AST_ERROR"@)
            },
        },
{
    let mut c = Comptime::new();
    proof {
        match ast@ {
            Ast::Program(nodes) => crate::laws::generation_keeps_bookkeeping(MAX_INLINE_DEPTH as nat, nodes, c@),
            Ast::Block(nodes) => crate::laws::generation_keeps_bookkeeping(MAX_INLINE_DEPTH as nat, nodes, c@),
            _ => {},
        }
    }
    match &ast {
        ASTNode::Program(nodes) | ASTNode::Block(nodes) => match code_gen_nodes(nodes, &mut c, MAX_INLINE_DEPTH) {
            Ok(()) => Ok(c),
            Err(e) => Err(e),
        },
        _ => {
            let mut m = String::from_str("AST_ERROR");
            let ghost head = m@;
            m.push_str(": Expected Program node, got something else.");
            assert(m@.subrange(0, head.len() as int) =~= head);
            Err(m)
        },
    }
}

} // verus!
