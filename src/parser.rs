//! The parser: a recursive-descent reader of the token stream that builds
//! the syntax tree. Each function is proved to agree with its counterpart in
//! `grammar`.
use vstd::prelude::*;
use crate::grammar::{
    PARAM_DECL, kind_at, is_kind, text_at, dec_value, int_of, name_spec, index_spec, suffix_spec,
    type_spec, params_spec, param_list_spec, extern_spec, range_spec, block_of, stmt_spec,
    fn_def_spec, for_spec, var_decl_spec, struct_spec, members_spec, gate_spec, call_args_spec,
    arg_list_spec, bare_args_spec, expr_spec, postfix_spec, body_spec, program_spec,
    return_stmt_spec, deref_spec, reference_spec, function_call_spec, assignment_spec,
    struct_access_spec, array_access_spec,
};
use crate::text::{chars_of, ends_with};
use crate::tokenizer::{Token, digits_end, is_digit, skip_digits};

verus! {

/// The coarse kind of a token, as the parser sees it.
#[derive(Debug, Clone, Copy, PartialEq, Eq, Structural)]
pub enum Tok {
    OBracket,
    CBracket,
    OCBracket,
    CCBracket,
    OSBracket,
    CSBracket,
    DoublePoint,
    Semicolon,
    Comma,
    Equal,
    Reference,
    Star,
    DotDot,
    VarDecl,
    ConstDecl,
    Struct,
    Qbit,
    Void,
    Hash,
    Macro,
    GateDecl,
    GateCall,
    Dot,
    If,
    For,
    In,
    Return,
    Break,
    PHPRef,
    New,
    Old,
    Num,
    Qudit,
    /// Punctuation outside the keyword table, which the grammar skips.
    Punct,
    /// A kind the grammar has no use for (comment markers, stray
    /// punctuation, words the parser does not read).
    Unknown,
}

/// A node of the syntax tree.
#[derive(Debug)]
#[allow(inconsistent_fields)]
pub enum ASTNode {
    Program(Vec<ASTNode>),
    FunctionDef {
        name: String,
        ret_type: Box<ASTNode>,
        in_type: Vec<ASTNode>,
        body: Option<Box<ASTNode>>,
    },
    VariableDecl {
        name: String,
        value: Option<Box<ASTNode>>,
        type_: Option<Box<ASTNode>>,
        token: i32,
    },
    Block(Vec<ASTNode>),
    For {
        container: Box<ASTNode>,
        alias: String,
        body: Option<Box<ASTNode>>,
    },
    Return(Box<ASTNode>),
    FunctionCall {
        name: String,
        args: Vec<ASTNode>,
    },
    GateCall {
        name: String,
        args: Vec<ASTNode>,
    },
    Struct {
        name: String,
        types: Vec<ASTNode>,
    },
    ArrayIndex(u32),
    ArrayAccess {
        name: Box<ASTNode>,
        index: Box<ASTNode>,
    },
    Reference {
        value: Box<ASTNode>,
    },
    Dereference {
        value: Box<ASTNode>,
    },
    Void,
    Qbit,
    Custom,
    Num(i32),
    Type {
        name: String,
        specifier: Box<ASTNode>,
    },
    Range {
        start: Box<ASTNode>,
        end: Box<ASTNode>,
    },
    VariableCall {
        name: String,
    },
    Assignment {
        lval: Box<ASTNode>,
        value: Box<ASTNode>,
    },
    StructAccess {
        structure: Box<ASTNode>,
        member: String,
    },
    ArrayType {
        type_: Box<ASTNode>,
        size: Box<ASTNode>,
    },
    ExternArg {
        idx: Box<ASTNode>,
    },
    IntCall {
        name: String,
    },
    PointerType {
        type_: Box<ASTNode>,
    },
    Qdit,
}

/// The syntax tree as the specification sees it: text as character
/// sequences, children as sequences.
#[allow(inconsistent_fields)]
pub enum Ast {
    Program(Seq<Ast>),
    FunctionDef { name: Seq<char>, ret_type: Box<Ast>, in_type: Seq<Ast>, body: Option<Box<Ast>> },
    VariableDecl { name: Seq<char>, value: Option<Box<Ast>>, type_: Option<Box<Ast>>, token: int },
    Block(Seq<Ast>),
    For { container: Box<Ast>, alias: Seq<char>, body: Option<Box<Ast>> },
    Return(Box<Ast>),
    FunctionCall { name: Seq<char>, args: Seq<Ast> },
    GateCall { name: Seq<char>, args: Seq<Ast> },
    Struct { name: Seq<char>, types: Seq<Ast> },
    ArrayIndex(int),
    ArrayAccess { name: Box<Ast>, index: Box<Ast> },
    Reference { value: Box<Ast> },
    Dereference { value: Box<Ast> },
    Void,
    Qbit,
    Custom,
    Num(int),
    Type { name: Seq<char>, specifier: Box<Ast> },
    Range { start: Box<Ast>, end: Box<Ast> },
    VariableCall { name: Seq<char> },
    Assignment { lval: Box<Ast>, value: Box<Ast> },
    StructAccess { structure: Box<Ast>, member: Seq<char> },
    ArrayType { type_: Box<Ast>, size: Box<Ast> },
    ExternArg { idx: Box<Ast> },
    IntCall { name: Seq<char> },
    PointerType { type_: Box<Ast> },
    Qdit,
}

/// The views of a sequence of nodes.
pub open spec fn nodes_view(s: Seq<ASTNode>) -> Seq<Ast>
    decreases s,
{
    if s.len() == 0 {
        seq![]
    } else {
        nodes_view(s.subrange(0, s.len() - 1)).push(s[s.len() - 1].view())
    }
}

pub open spec fn opt_view(o: Option<Box<ASTNode>>) -> Option<Box<Ast>>
    decreases o,
{
    match o {
        Some(b) => Some(Box::new(b.view())),
        None => None,
    }
}

impl ASTNode {
    pub open spec fn view(&self) -> Ast
        decreases self,
    {
        match self {
            ASTNode::Program(v) => Ast::Program(nodes_view(v@)),
            ASTNode::FunctionDef { name, ret_type, in_type, body } => Ast::FunctionDef {
                name: name@,
                ret_type: Box::new(ret_type.view()),
                in_type: nodes_view(in_type@),
                body: opt_view(*body),
            },
            ASTNode::VariableDecl { name, value, type_, token } => Ast::VariableDecl {
                name: name@,
                value: opt_view(*value),
                type_: opt_view(*type_),
                token: *token as int,
            },
            ASTNode::Block(v) => Ast::Block(nodes_view(v@)),
            ASTNode::For { container, alias, body } => Ast::For {
                container: Box::new(container.view()),
                alias: alias@,
                body: opt_view(*body),
            },
            ASTNode::Return(v) => Ast::Return(Box::new(v.view())),
            ASTNode::FunctionCall { name, args } => Ast::FunctionCall {
                name: name@,
                args: nodes_view(args@),
            },
            ASTNode::GateCall { name, args } => Ast::GateCall { name: name@, args: nodes_view(args@) },
            ASTNode::Struct { name, types } => Ast::Struct { name: name@, types: nodes_view(types@) },
            ASTNode::ArrayIndex(n) => Ast::ArrayIndex(*n as int),
            ASTNode::ArrayAccess { name, index } => Ast::ArrayAccess {
                name: Box::new(name.view()),
                index: Box::new(index.view()),
            },
            ASTNode::Reference { value } => Ast::Reference { value: Box::new(value.view()) },
            ASTNode::Dereference { value } => Ast::Dereference { value: Box::new(value.view()) },
            ASTNode::Void => Ast::Void,
            ASTNode::Qbit => Ast::Qbit,
            ASTNode::Custom => Ast::Custom,
            ASTNode::Num(n) => Ast::Num(*n as int),
            ASTNode::Type { name, specifier } => Ast::Type {
                name: name@,
                specifier: Box::new(specifier.view()),
            },
            ASTNode::Range { start, end } => Ast::Range {
                start: Box::new(start.view()),
                end: Box::new(end.view()),
            },
            ASTNode::VariableCall { name } => Ast::VariableCall { name: name@ },
            ASTNode::Assignment { lval, value } => Ast::Assignment {
                lval: Box::new(lval.view()),
                value: Box::new(value.view()),
            },
            ASTNode::StructAccess { structure, member } => Ast::StructAccess {
                structure: Box::new(structure.view()),
                member: member@,
            },
            ASTNode::ArrayType { type_, size } => Ast::ArrayType {
                type_: Box::new(type_.view()),
                size: Box::new(size.view()),
            },
            ASTNode::ExternArg { idx } => Ast::ExternArg { idx: Box::new(idx.view()) },
            ASTNode::IntCall { name } => Ast::IntCall { name: name@ },
            ASTNode::PointerType { type_ } => Ast::PointerType { type_: Box::new(type_.view()) },
            ASTNode::Qdit => Ast::Qdit,
        }
    }
}

// ---------------------------------------------------------------- token kinds

/// The coarse kind of a lexer kind.
pub open spec fn tok_of(k: int) -> Tok {
    if k == 3 {
        Tok::OBracket
    } else if k == 4 {
        Tok::CBracket
    } else if k == 5 {
        Tok::OCBracket
    } else if k == 6 {
        Tok::CCBracket
    } else if k == 7 {
        Tok::OSBracket
    } else if k == 8 {
        Tok::CSBracket
    } else if k == 9 {
        Tok::DoublePoint
    } else if k == 10 {
        Tok::Semicolon
    } else if k == 11 {
        Tok::Comma
    } else if k == 12 {
        Tok::Equal
    } else if k == 13 {
        Tok::Reference
    } else if k == 14 {
        Tok::Star
    } else if k == 15 {
        Tok::DotDot
    } else if k == 16 {
        Tok::VarDecl
    } else if k == 17 {
        Tok::ConstDecl
    } else if k == 18 {
        Tok::Struct
    } else if k == 19 {
        Tok::Qbit
    } else if k == 20 {
        Tok::Void
    } else if k == 21 {
        Tok::Hash
    } else if k == 22 {
        Tok::Macro
    } else if k == 23 {
        Tok::GateDecl
    } else if 24 <= k <= 38 {
        Tok::GateCall
    } else if k == 39 {
        Tok::Dot
    } else if k == 40 {
        Tok::If
    } else if k == 41 {
        Tok::For
    } else if k == 42 {
        Tok::In
    } else if k == 43 {
        Tok::Return
    } else if k == 44 {
        Tok::Break
    } else if k == 45 {
        Tok::PHPRef
    } else if k == 46 {
        Tok::Qudit
    } else if k == 70 {
        Tok::New
    } else if k == 71 {
        Tok::Old
    } else if k == 72 {
        Tok::Num
    } else if k == 75 {
        Tok::Punct
    } else {
        Tok::Unknown
    }
}

fn tok_of_kind(k: i32) -> (r: Tok)
    ensures
        r == tok_of(k as int),
{
    if k == 3 {
        Tok::OBracket
    } else if k == 4 {
        Tok::CBracket
    } else if k == 5 {
        Tok::OCBracket
    } else if k == 6 {
        Tok::CCBracket
    } else if k == 7 {
        Tok::OSBracket
    } else if k == 8 {
        Tok::CSBracket
    } else if k == 9 {
        Tok::DoublePoint
    } else if k == 10 {
        Tok::Semicolon
    } else if k == 11 {
        Tok::Comma
    } else if k == 12 {
        Tok::Equal
    } else if k == 13 {
        Tok::Reference
    } else if k == 14 {
        Tok::Star
    } else if k == 15 {
        Tok::DotDot
    } else if k == 16 {
        Tok::VarDecl
    } else if k == 17 {
        Tok::ConstDecl
    } else if k == 18 {
        Tok::Struct
    } else if k == 19 {
        Tok::Qbit
    } else if k == 20 {
        Tok::Void
    } else if k == 21 {
        Tok::Hash
    } else if k == 22 {
        Tok::Macro
    } else if k == 23 {
        Tok::GateDecl
    } else if 24 <= k && k <= 38 {
        Tok::GateCall
    } else if k == 39 {
        Tok::Dot
    } else if k == 40 {
        Tok::If
    } else if k == 41 {
        Tok::For
    } else if k == 42 {
        Tok::In
    } else if k == 43 {
        Tok::Return
    } else if k == 44 {
        Tok::Break
    } else if k == 45 {
        Tok::PHPRef
    } else if k == 46 {
        Tok::Qudit
    } else if k == 70 {
        Tok::New
    } else if k == 71 {
        Tok::Old
    } else if k == 72 {
        Tok::Num
    } else if k == 75 {
        Tok::Punct
    } else {
        Tok::Unknown
    }
}

/// The coarse kind of each token, in order.
pub fn from_tokens(tokens: Vec<Token>) -> (r: Vec<Tok>)
    ensures
        r.len() == tokens.len(),
        forall|i: int| 0 <= i < tokens.len() ==> r@[i] == tok_of(#[trigger] tokens@[i].token as int),
{
    let mut out: Vec<Tok> = Vec::new();
    let mut i: usize = 0;
    while i < tokens.len()
        invariant
            i <= tokens.len(),
            out.len() == i,
            forall|k: int| 0 <= k < i ==> out@[k] == tok_of(#[trigger] tokens@[k].token as int),
        decreases tokens.len() - i,
    {
        out.push(tok_of_kind(tokens[i].token));
        i += 1;
    }
    out
}

// ---------------------------------------------------------------- the stream

/// The stream the grammar reads: the kinds and the tokens, paired up to the
/// shorter of the two.
pub open spec fn stream_of(ks: Seq<Tok>, ts: Seq<Token>) -> Seq<(Tok, Seq<char>, int)> {
    let n: int = if ks.len() < ts.len() {
        ks.len() as int
    } else {
        ts.len() as int
    };
    Seq::new(n as nat, |i: int| (ks[i], ts[i].value@, ts[i].token as int))
}

struct Stream {
    kinds: Vec<Tok>,
    toks: Vec<Token>,
}

impl View for Stream {
    type V = Seq<(Tok, Seq<char>, int)>;

    closed spec fn view(&self) -> Seq<(Tok, Seq<char>, int)> {
        stream_of(self.kinds@, self.toks@)
    }
}

impl Stream {
    fn len(&self) -> (r: usize)
        ensures
            r == self@.len(),
    {
        if self.kinds.len() < self.toks.len() {
            self.kinds.len()
        } else {
            self.toks.len()
        }
    }

    fn kind(&self, p: usize) -> (r: Option<Tok>)
        ensures
            r == kind_at(self@, p as int),
    {
        if p < self.len() {
            Some(self.kinds[p])
        } else {
            None
        }
    }

    fn is(&self, p: usize, k: Tok) -> (r: bool)
        ensures
            r == is_kind(self@, p as int, k),
    {
        match self.kind(p) {
            Some(t) => t == k,
            None => false,
        }
    }

    fn text(&self, p: usize) -> (r: String)
        requires
            p < self@.len(),
        ensures
            r@ == text_at(self@, p as int),
    {
        self.toks[p].value.clone()
    }

    fn lex_kind(&self, p: usize) -> (r: i32)
        requires
            p < self@.len(),
        ensures
            r as int == self@[p as int].2,
    {
        self.toks[p].token
    }
}

/// What stands at position `p`: the token's text, or the end of input.
pub open spec fn found(s: Seq<(Tok, Seq<char>, int)>, p: int) -> Seq<char> {
    if 0 <= p < s.len() {
        text_at(s, p)
    } else {
        "end of input"@
    }
}

/// The end of a message that names what stands at `p`.
pub open spec fn got(s: Seq<(Tok, Seq<char>, int)>, p: int) -> Seq<char> {
    ", got "@ + found(s, p)
}

/// `m` names the offending token of `s`, or the end of input: it ends with
/// `, got ` and that token's text or `end of input`.
pub open spec fn reports(s: Seq<(Tok, Seq<char>, int)>, m: Seq<char>) -> bool {
    exists|p: int| 0 <= p && ends_with(m, #[trigger] got(s, p))
}

/// A message naming what was expected at `p` and what stands there.
fn fail(s: &Stream, p: usize, what: &str) -> (m: String)
    ensures
        reports(s@, m@),
{
    let mut m = String::new();
    m.push_str("expected ");
    m.push_str(what);
    let ghost head = m@;
    m.push_str(", got ");
    if p < s.len() {
        let t = s.text(p);
        m.push_str(t.as_str());
    } else {
        m.push_str("end of input");
    }
    assert(m@ =~= head + got(s@, p as int));
    assert(m@.subrange(m@.len() - got(s@, p as int).len(), m@.len() as int) =~= got(s@, p as int));
    m
}

// ---------------------------------------------------------------- numbers

proof fn lemma_digits_end_all(t: Seq<char>, i: int)
    requires
        0 <= i,
        digits_end(t, i) == t.len(),
    ensures
        forall|k: int| i <= k < t.len() ==> is_digit(#[trigger] t[k]),
    decreases t.len() - i,
{
    if i < t.len() {
        lemma_digits_end_all(t, i + 1);
    }
}

proof fn lemma_dec_nonneg(t: Seq<char>, a: int, b: int)
    requires
        0 <= a,
        b <= t.len(),
        forall|k: int| a <= k < b ==> is_digit(#[trigger] t[k]),
    ensures
        0 <= dec_value(t, a, b),
    decreases b - a,
{
    if b > a {
        lemma_dec_nonneg(t, a, b - 1);
    }
}

proof fn lemma_dec_mono(t: Seq<char>, a: int, b: int, c: int)
    requires
        a <= b <= c <= t.len(),
        0 <= a,
        forall|k: int| a <= k < c ==> is_digit(#[trigger] t[k]),
    ensures
        dec_value(t, a, b) <= dec_value(t, a, c),
    decreases c - b,
{
    if c > b {
        lemma_dec_mono(t, a, b, c - 1);
        lemma_dec_nonneg(t, a, c - 1);
    }
}

/// The integer that `t` spells for `i32` (`signed`) or `u32`: see `int_of`.
fn read_int(t: &String, signed: bool) -> (r: Option<i64>)
    ensures
        match r {
            Some(v) => int_of(t@, signed) == Some(v as int),
            None => int_of(t@, signed) is None,
        },
{
    let v = chars_of(t.as_str());
    let neg = signed && v.len() > 0 && v[0] == '-';
    let st: usize = if v.len() > 0 && (v[0] == '+' || neg) {
        1
    } else {
        0
    };
    if st >= v.len() || skip_digits(&v, st) != v.len() {
        return None;
    }
    proof {
        lemma_digits_end_all(v@, st as int);
    }
    let mut m: i64 = 0;
    let mut k: usize = st;
    while k < v.len()
        invariant
            st <= k <= v.len(),
            v@ == t@,
            digits_end(v@, st as int) == v@.len(),
            neg == (signed && v@.len() > 0 && v@[0] == '-'),
            st == (if v@.len() > 0 && (v@[0] == '+' || neg) {
                1usize
            } else {
                0usize
            }),
            forall|u: int| st <= u < v.len() ==> is_digit(#[trigger] v@[u]),
            m as int == dec_value(v@, st as int, k as int),
            0 <= m <= 4294967296,
        decreases v.len() - k,
    {
        let d = ((v[k] as u32) - 48) as i64;
        m = m * 10 + d;
        k += 1;
        if m > 4294967296 {
            proof {
                lemma_dec_mono(v@, st as int, k as int, v.len() as int);
            }
            return None;
        }
    }
    let val: i64 = if neg {
        -m
    } else {
        m
    };
    if (signed && -2147483648 <= val && val <= 2147483647) || (!signed && 0 <= val && val
        <= 4294967295) {
        Some(val)
    } else {
        None
    }
}

// ---------------------------------------------------------------- leaves

pub open spec fn agrees(r: Result<(ASTNode, usize), String>, e: Result<(Ast, int), ()>, s: Seq<(Tok, Seq<char>, int)>) -> bool {
    match r {
        Ok((v, q)) => e == Ok::<(Ast, int), ()>((v@, q as int)) && q <= s.len(),
        Err(m) => e is Err && reports(s, m@),
    }
}

pub open spec fn opt_node(o: Option<ASTNode>) -> Option<Ast> {
    match o {
        Some(v) => Some(v@),
        None => None,
    }
}

pub open spec fn agrees_opt(r: Result<(Option<ASTNode>, usize), String>, e: Result<(Option<Ast>, int), ()>, s: Seq<(Tok, Seq<char>, int)>) -> bool {
    match r {
        Ok((v, q)) => e == Ok::<(Option<Ast>, int), ()>((opt_node(v), q as int)) && q <= s.len(),
        Err(m) => e is Err && reports(s, m@),
    }
}

pub open spec fn agrees_list(r: Result<(Vec<ASTNode>, usize), String>, e: Result<(Seq<Ast>, int), ()>, s: Seq<(Tok, Seq<char>, int)>) -> bool {
    match r {
        Ok((v, q)) => e == Ok::<(Seq<Ast>, int), ()>((nodes_view(v@), q as int)) && q <= s.len(),
        Err(m) => e is Err && reports(s, m@),
    }
}

impl DeepView for ASTNode {
    type V = Ast;

    open spec fn deep_view(&self) -> Ast {
        self.view()
    }
}

/// The view of a node sequence is the sequence of the nodes' views.
pub proof fn lemma_nodes_view_index(s: Seq<ASTNode>)
    ensures
        nodes_view(s).len() == s.len(),
        forall|k: int| 0 <= k < s.len() ==> nodes_view(s)[k] == (#[trigger] s[k])@,
        nodes_view(s) == s.map_values(|x: ASTNode| x.deep_view()),
    decreases s.len(),
{
    if s.len() > 0 {
        let t = s.subrange(0, s.len() - 1);
        lemma_nodes_view_index(t);
        assert forall|k: int| 0 <= k < s.len() implies nodes_view(s)[k] == (#[trigger] s[k])@ by {
            if k < s.len() - 1 {
                assert(t[k] == s[k]);
            }
        }
        assert(nodes_view(s) =~= s.map_values(|x: ASTNode| x.deep_view()));
    } else {
        assert(nodes_view(s) =~= s.map_values(|x: ASTNode| x.deep_view()));
    }
}

pub proof fn lemma_nodes_view_push(v: Seq<ASTNode>, n: ASTNode)
    ensures
        nodes_view(v.push(n)) == nodes_view(v).push(n@),
{
    assert(v.push(n).subrange(0, v.len() as int) =~= v);
}

fn parse_name(s: &Stream, p: usize) -> (r: Result<(String, usize), String>)
    requires
        p <= s@.len() < usize::MAX,
    ensures
        match r {
            Ok((t, q)) => name_spec(s@, p as int) == Ok::<(Seq<char>, int), ()>((t@, q as int))
                && q <= s@.len(),
            Err(m) => name_spec(s@, p as int) is Err && reports(s@, m@),
        },
{
    if s.is(p, Tok::New) {
        Ok((s.text(p), p + 1))
    } else {
        Err(fail(s, p, "a new name"))
    }
}

fn parse_index(s: &Stream, p: usize, in_type: bool) -> (r: Result<(ASTNode, usize), String>)
    requires
        p <= s@.len() < usize::MAX,
    ensures
        agrees(r, index_spec(s@, p as int, in_type), s@),
{
    proof {
        reveal_with_fuel(ASTNode::view, 3);
    }
    match s.kind(p) {
        Some(Tok::Num) => {
            let t = s.text(p);
            match read_int(&t, in_type) {
                Some(v) => if in_type {
                    Ok((ASTNode::Num(v as i32), p + 1))
                } else {
                    Ok((ASTNode::ArrayIndex(v as u32), p + 1))
                },
                None => Err(fail(s, p, "an integer")),
            }
        },
        Some(Tok::PHPRef) => match s.kind(p + 1) {
            Some(Tok::Num) => {
                let t = s.text(p + 1);
                match read_int(&t, false) {
                    Some(v) => Ok(
                        (ASTNode::ExternArg { idx: Box::new(ASTNode::ArrayIndex(v as u32)) }, p + 2),
                    ),
                    None => Err(fail(s, p + 1, "an index")),
                }
            },
            Some(Tok::Old) => Ok(
                (
                    ASTNode::ExternArg { idx: Box::new(ASTNode::IntCall { name: s.text(p + 1) }) },
                    p + 2,
                ),
            ),
            _ => Err(fail(s, p + 1, "an index or a loop variable")),
        },
        Some(Tok::Old) => Ok((ASTNode::IntCall { name: s.text(p) }, p + 1)),
        _ => Err(fail(s, p, "a literal or a loop variable")),
    }
}

fn parse_suffix(s: &Stream, p: usize, base: ASTNode) -> (r: Result<(ASTNode, usize), String>)
    requires
        p <= s@.len() < usize::MAX,
    ensures
        agrees(r, suffix_spec(s@, p as int, base@), s@),
{
    proof {
        reveal_with_fuel(ASTNode::view, 3);
    }
    if s.is(p, Tok::OSBracket) {
        match parse_index(s, p + 1, true) {
            Ok((sz, q)) => if s.is(q, Tok::CSBracket) {
                Ok((ASTNode::ArrayType { type_: Box::new(base), size: Box::new(sz) }, q + 1))
            } else {
                Err(fail(s, q, "]"))
            },
            Err(e) => Err(e),
        }
    } else {
        Ok((base, p))
    }
}

/// Reads a type: `void`, `qdit`, `qbit` or a type name, each with an
/// optional `[size]`, or `*` and a type.
fn parse_type_(s: &Stream, p: usize) -> (r: Result<(ASTNode, usize), String>)
    requires
        p <= s@.len() < usize::MAX,
    ensures
        agrees(r, type_spec(s@, p as int), s@),
    decreases s@.len() - p,
{
    proof {
        reveal_with_fuel(ASTNode::view, 3);
    }
    match s.kind(p) {
        Some(Tok::Void) => parse_suffix(s, p + 1, ASTNode::Void),
        Some(Tok::Qudit) => parse_suffix(s, p + 1, ASTNode::Qdit),
        Some(Tok::Qbit) => parse_suffix(s, p + 1, ASTNode::Qbit),
        Some(Tok::Old) => {
            let name = s.text(p);
            parse_suffix(s, p + 1, ASTNode::Type { name, specifier: Box::new(ASTNode::Custom) })
        },
        Some(Tok::Star) => match parse_type_(s, p + 1) {
            Ok((t, q)) => Ok((ASTNode::PointerType { type_: Box::new(t) }, q)),
            Err(e) => Err(e),
        },
        _ => Err(fail(s, p, "a type")),
    }
}

/// Reads a parameter list after its `(`, up to and including `)`.
fn parse_arguments_(s: &Stream, p: usize) -> (r: Result<(Vec<ASTNode>, usize), String>)
    requires
        p <= s@.len() < usize::MAX,
    ensures
        agrees_list(r, param_list_spec(s@, p as int), s@),
{
    proof {
        reveal_with_fuel(ASTNode::view, 3);
        reveal_with_fuel(opt_view, 2);
    }
    let mut acc: Vec<ASTNode> = Vec::new();
    if s.is(p, Tok::CBracket) {
        return Ok((acc, p + 1));
    }
    let mut pos = p;
    assert(nodes_view(acc@) =~= seq![]);
    loop
        invariant
            pos <= s@.len(),
            s@.len() < usize::MAX,
            params_spec(s@, pos as int, nodes_view(acc@)) == param_list_spec(s@, p as int),
        decreases s@.len() - pos,
    {
        let name = match parse_name(s, pos) {
            Ok((n, _)) => n,
            Err(e) => return Err(e),
        };
        if !s.is(pos + 1, Tok::DoublePoint) {
            return Err(fail(s, pos + 1, ":"));
        }
        let (t, q) = match parse_type_(s, pos + 2) {
            Ok(x) => x,
            Err(e) => return Err(e),
        };
        let ghost nv = name@;
        let ghost tv = t@;
        let bt = Box::new(t);
        proof {
            assert(opt_view(Some(bt)) == Some(Box::new(tv)));
            assert(opt_view(None) == None::<Box<Ast>>);
        }
        let d = ASTNode::VariableDecl { name, value: None, type_: Some(bt), token: PARAM_DECL };
        proof {
            lemma_nodes_view_push(acc@, d);
            assert(d@ == Ast::VariableDecl { name: nv, value: None, type_: Some(Box::new(tv)), token: PARAM_DECL as int });
        }
        acc.push(d);
        if s.is(q, Tok::Comma) && q + 1 > pos {
            pos = q + 1;
        } else if s.is(q, Tok::CBracket) {
            return Ok((acc, q + 1));
        } else {
            return Err(fail(s, q, ", or )"));
        }
    }
}

fn parse_extern(s: &Stream, p: usize) -> (r: Result<(ASTNode, usize), String>)
    requires
        p <= s@.len() < usize::MAX,
    ensures
        agrees(r, extern_spec(s@, p as int), s@),
{
    proof {
        reveal_with_fuel(ASTNode::view, 3);
    }
    if p < s.len() {
        let t = s.text(p);
        match read_int(&t, false) {
            Some(v) => Ok((ASTNode::ExternArg { idx: Box::new(ASTNode::ArrayIndex(v as u32)) }, p + 1)),
            None => Ok((ASTNode::ExternArg { idx: Box::new(ASTNode::IntCall { name: t }) }, p + 1)),
        }
    } else {
        Err(fail(s, p, "an index after $"))
    }
}

/// Reads the end of a range from its `..`.
fn parse_range_(s: &Stream, p: usize, start: i32) -> (r: Result<(Option<ASTNode>, usize), String>)
    requires
        p <= s@.len() < usize::MAX,
    ensures
        agrees_opt(r, range_spec(s@, p as int, start as int), s@),
{
    proof {
        reveal_with_fuel(ASTNode::view, 3);
    }
    if s.is(p, Tok::DotDot) && p + 1 < s.len() {
        let t = s.text(p + 1);
        match read_int(&t, true) {
            Some(e) => Ok(
                (
                    Some(
                        ASTNode::Range {
                            start: Box::new(ASTNode::Num(start)),
                            end: Box::new(ASTNode::Num(e as i32)),
                        },
                    ),
                    p + 2,
                ),
            ),
            None => Err(fail(s, p + 1, "an integer")),
        }
    } else {
        Err(fail(s, p, ".. and an integer"))
    }
}

// ---------------------------------------------------------------- statements

proof fn lemma_nodes_view_len(v: Seq<ASTNode>)
    ensures
        nodes_view(v).len() == v.len(),
    decreases v.len(),
{
    if v.len() > 0 {
        lemma_nodes_view_len(v.subrange(0, v.len() - 1));
    }
}

fn lift(r: Result<(ASTNode, usize), String>) -> (o: Result<(Option<ASTNode>, usize), String>)
    ensures
        o == match r {
            Ok((v, q)) => Ok::<(Option<ASTNode>, usize), String>((Some(v), q)),
            Err(e) => Err(e),
        },
{
    match r {
        Ok((v, q)) => Ok((Some(v), q)),
        Err(e) => Err(e),
    }
}

/// The block of a body, absent when the body is empty.
fn block(b: Vec<ASTNode>) -> (r: Option<Box<ASTNode>>)
    ensures
        opt_view(r) == block_of(nodes_view(b@)),
{
    proof {
        lemma_nodes_view_len(b@);
        reveal_with_fuel(opt_view, 2);
    }
    if b.len() == 0 {
        None
    } else {
        Some(Box::new(ASTNode::Block(b)))
    }
}

/// Reads one statement, or none where the next token starts none; empty
/// statements and stray `)` are skipped.
fn parse_statement(s: &Stream, p: usize) -> (r: Result<(Option<ASTNode>, usize), String>)
    requires
        p <= s@.len() < usize::MAX,
    ensures
        agrees_opt(r, stmt_spec(s@, p as int), s@),
    decreases s@.len() - p, 2int,
{
    proof {
        reveal_with_fuel(ASTNode::view, 3);
    }
    match s.kind(p) {
        None => Ok((None, p)),
        Some(k) => match k {
            Tok::Qbit | Tok::Void | Tok::Qudit => lift(parse_function_def_(s, p)),
            Tok::For => lift(parse_for_(s, p + 1)),
            Tok::VarDecl | Tok::ConstDecl => lift(parse_var_decl(s, p)),
            Tok::Struct => lift(parse_struct_def_(s, p + 1)),
            Tok::GateCall => lift(parse_gate_call_(s, p)),
            Tok::Return => lift(parse_return_(s, p + 1)),
            Tok::Old => lift(parse_any_(s, p)),
            Tok::Star => lift(parse_any_2(s, p + 1)),
            Tok::Reference => lift(parse_any_3(s, p + 1)),
            Tok::Num => {
                let t = s.text(p);
                match read_int(&t, true) {
                    Some(n) => if s.is(p + 1, Tok::DotDot) {
                        parse_range_(s, p + 1, n as i32)
                    } else {
                        Ok((Some(ASTNode::Num(n as i32)), p + 1))
                    },
                    None => Err(fail(s, p, "an integer")),
                }
            },
            Tok::CBracket | Tok::Semicolon | Tok::Punct => parse_statement(s, p + 1),
            Tok::PHPRef => lift(parse_extern(s, p + 1)),
            _ => Ok((None, p)),
        },
    }
}

/// Reads the value of a `return`, after `return`.
fn parse_return_(s: &Stream, p: usize) -> (r: Result<(ASTNode, usize), String>)
    requires
        p <= s@.len() < usize::MAX,
    ensures
        agrees(r, return_stmt_spec(s@, p as int), s@),
    decreases s@.len() - p, 3int,
{
    match parse_statement(s, p) {
        Ok((Some(v), q)) => Ok((ASTNode::Return(Box::new(v)), q)),
        Ok((None, q)) => Err(fail(s, q, "a value to return")),
        Err(e) => Err(e),
    }
}

/// Reads the operand of `*`, after `*`.
fn parse_any_2(s: &Stream, p: usize) -> (r: Result<(ASTNode, usize), String>)
    requires
        p <= s@.len() < usize::MAX,
    ensures
        agrees(r, deref_spec(s@, p as int), s@),
    decreases s@.len() - p, 3int,
{
    match parse_statement(s, p) {
        Ok((Some(v), q)) => Ok((ASTNode::Dereference { value: Box::new(v) }, q)),
        Ok((None, q)) => Err(fail(s, q, "a value after *")),
        Err(e) => Err(e),
    }
}

/// Reads the operand of `&`, after `&`.
fn parse_any_3(s: &Stream, p: usize) -> (r: Result<(ASTNode, usize), String>)
    requires
        p <= s@.len() < usize::MAX,
    ensures
        agrees(r, reference_spec(s@, p as int), s@),
    decreases s@.len() - p, 3int,
{
    match parse_statement(s, p) {
        Ok((Some(v), q)) => Ok((ASTNode::Reference { value: Box::new(v) }, q)),
        Ok((None, q)) => Err(fail(s, q, "a value after &")),
        Err(e) => Err(e),
    }
}

/// Reads `type name ( params ) { body }`.
fn parse_function_def_(s: &Stream, p: usize) -> (r: Result<(ASTNode, usize), String>)
    requires
        p <= s@.len() < usize::MAX,
    ensures
        agrees(r, fn_def_spec(s@, p as int), s@),
    decreases s@.len() - p, 1int,
{
    let (t, p1) = match parse_type_(s, p) {
        Ok(x) => x,
        Err(e) => return Err(e),
    };
    let (name, p2) = match parse_name(s, p1) {
        Ok(x) => x,
        Err(e) => return Err(e),
    };
    if !s.is(p2, Tok::OBracket) {
        return Err(fail(s, p2, "("));
    }
    let (params, p3) = match parse_arguments_(s, p2 + 1) {
        Ok(x) => x,
        Err(e) => return Err(e),
    };
    if !(s.is(p3, Tok::OCBracket) && p3 + 1 > p) {
        return Err(fail(s, p3, "{"));
    }
    let (b, p4) = match parse_body_(s, p3 + 1) {
        Ok(x) => x,
        Err(e) => return Err(e),
    };
    if !s.is(p4, Tok::CCBracket) {
        return Err(fail(s, p4, "}"));
    }
    let body = block(b);
    Ok((ASTNode::FunctionDef { name, ret_type: Box::new(t), in_type: params, body }, p4 + 1))
}

/// Reads `( alias in container ) { body }` after `for`.
fn parse_for_(s: &Stream, p: usize) -> (r: Result<(ASTNode, usize), String>)
    requires
        p <= s@.len() < usize::MAX,
    ensures
        agrees(r, for_spec(s@, p as int), s@),
    decreases s@.len() - p, 1int,
{
    if !s.is(p, Tok::OBracket) {
        return Err(fail(s, p, "("));
    }
    let (alias, p2) = match parse_name(s, p + 1) {
        Ok(x) => x,
        Err(e) => return Err(e),
    };
    if !s.is(p2, Tok::In) {
        return Err(fail(s, p2, "in"));
    }
    let (c, p3) = match parse_statement(s, p2 + 1) {
        Ok((Some(c), q)) => (c, q),
        Ok((None, q)) => return Err(fail(s, q, "a range or an array")),
        Err(e) => return Err(e),
    };
    if !(s.is(p3, Tok::CBracket) && s.is(p3 + 1, Tok::OCBracket) && p3 + 2 > p) {
        return Err(fail(s, p3, ") {"));
    }
    let (b, p4) = match parse_body_(s, p3 + 2) {
        Ok(x) => x,
        Err(e) => return Err(e),
    };
    if !s.is(p4, Tok::CCBracket) {
        return Err(fail(s, p4, "}"));
    }
    let body = block(b);
    Ok((ASTNode::For { container: Box::new(c), alias, body }, p4 + 1))
}

/// Reads `let` or `const`, a new name, an optional `: type` and an optional
/// `= value`, up to the closing `;`, which is left in place.
fn parse_var_decl(s: &Stream, p: usize) -> (r: Result<(ASTNode, usize), String>)
    requires
        p <= s@.len() < usize::MAX,
    ensures
        agrees(r, var_decl_spec(s@, p as int), s@),
    decreases s@.len() - p, 1int,
{
    proof {
        reveal_with_fuel(ASTNode::view, 3);
        reveal_with_fuel(opt_view, 2);
        assert(opt_view(None) == None::<Box<Ast>>);
    }
    let tok: i32 = if p < s.len() {
        s.lex_kind(p)
    } else {
        0
    };
    if p >= s.len() {
        return Err(fail(s, p, "let or const"));
    }
    let (name, p1) = match parse_name(s, p + 1) {
        Ok(x) => x,
        Err(e) => return Err(e),
    };
    match s.kind(p1) {
        Some(Tok::DoublePoint) => {
            let (t, q) = match parse_type_(s, p1 + 1) {
                Ok(x) => x,
                Err(e) => return Err(e),
            };
            if s.is(q, Tok::Semicolon) {
                Ok((ASTNode::VariableDecl { name, value: None, type_: Some(Box::new(t)), token: tok }, q))
            } else if s.is(q, Tok::Equal) && q + 1 > p {
                match parse_statement(s, q + 1) {
                    Ok((Some(v), q2)) => if s.is(q2, Tok::Semicolon) {
                        Ok(
                            (
                                ASTNode::VariableDecl {
                                    name,
                                    value: Some(Box::new(v)),
                                    type_: Some(Box::new(t)),
                                    token: tok,
                                },
                                q2,
                            ),
                        )
                    } else {
                        Err(fail(s, q2, ";"))
                    },
                    Ok((None, q2)) => Err(fail(s, q2, "a value")),
                    Err(e) => Err(e),
                }
            } else {
                Err(fail(s, q, "; or ="))
            }
        },
        Some(Tok::Semicolon) => Ok(
            (ASTNode::VariableDecl { name, value: None, type_: None, token: tok }, p1),
        ),
        Some(Tok::Equal) => match parse_statement(s, p1 + 1) {
            Ok((Some(v), q2)) => if s.is(q2, Tok::Semicolon) {
                Ok(
                    (
                        ASTNode::VariableDecl {
                            name,
                            value: Some(Box::new(v)),
                            type_: None,
                            token: tok,
                        },
                        q2,
                    ),
                )
            } else {
                Err(fail(s, q2, ";"))
            },
            Ok((None, q2)) => Err(fail(s, q2, "a value")),
            Err(e) => Err(e),
        },
        _ => Err(fail(s, p1, ":, = or ;")),
    }
}

/// Reads `name { members }` after `struct`.
fn parse_struct_def_(s: &Stream, p: usize) -> (r: Result<(ASTNode, usize), String>)
    requires
        p <= s@.len() < usize::MAX,
    ensures
        agrees(r, struct_spec(s@, p as int), s@),
    decreases s@.len() - p, 1int,
{
    let (name, p1) = match parse_name(s, p) {
        Ok(x) => x,
        Err(e) => return Err(e),
    };
    if !s.is(p1, Tok::OCBracket) {
        return Err(fail(s, p1, "{"));
    }
    match parse_struct_members(s, p1 + 1) {
        Ok((types, q)) => Ok((ASTNode::Struct { name, types }, q)),
        Err(e) => Err(e),
    }
}

/// Reads member declarations, each ended by `;`, up to and including `}`.
fn parse_struct_members(s: &Stream, p: usize) -> (r: Result<(Vec<ASTNode>, usize), String>)
    requires
        p <= s@.len() < usize::MAX,
    ensures
        agrees_list(r, members_spec(s@, p as int, seq![]), s@),
    decreases s@.len() - p, 2int,
{
    let mut acc: Vec<ASTNode> = Vec::new();
    let mut pos = p;
    assert(nodes_view(acc@) =~= seq![]);
    loop
        invariant
            p <= pos <= s@.len() < usize::MAX,
            members_spec(s@, pos as int, nodes_view(acc@)) == members_spec(s@, p as int, seq![]),
        decreases s@.len() - pos,
    {
        match s.kind(pos) {
            Some(Tok::CCBracket) => return Ok((acc, pos + 1)),
            Some(Tok::VarDecl) | Some(Tok::ConstDecl) => {
                let (d, q) = match parse_var_decl(s, pos) {
                    Ok(x) => x,
                    Err(e) => return Err(e),
                };
                if s.is(q, Tok::Semicolon) && q + 1 > pos {
                    proof {
                        lemma_nodes_view_push(acc@, d);
                    }
                    acc.push(d);
                    pos = q + 1;
                } else {
                    return Err(fail(s, q, ";"));
                }
            },
            _ => return Err(fail(s, pos, "a member or }")),
        }
    }
}

/// Reads a gate mnemonic and its operands, in parentheses or bare up to the
/// end of the statement.
fn parse_gate_call_(s: &Stream, p: usize) -> (r: Result<(ASTNode, usize), String>)
    requires
        p <= s@.len() < usize::MAX,
    ensures
        agrees(r, gate_spec(s@, p as int), s@),
    decreases s@.len() - p, 1int,
{
    if p >= s.len() {
        return Err(fail(s, p, "a gate"));
    }
    let name = s.text(p);
    if s.is(p + 1, Tok::OBracket) {
        match parse_call_args(s, p + 2) {
            Ok((args, q)) => Ok((ASTNode::GateCall { name, args }, q)),
            Err(e) => Err(e),
        }
    } else {
        match parse_bare_args(s, p + 1) {
            Ok((args, q)) => Ok((ASTNode::GateCall { name, args }, q)),
            Err(e) => Err(e),
        }
    }
}

/// Reads arguments after `(`, separated by `,`, up to and including `)`.
fn parse_call_args(s: &Stream, p: usize) -> (r: Result<(Vec<ASTNode>, usize), String>)
    requires
        p <= s@.len() < usize::MAX,
    ensures
        agrees_list(r, call_args_spec(s@, p as int), s@),
    decreases s@.len() - p, 4int,
{
    let mut acc: Vec<ASTNode> = Vec::new();
    assert(nodes_view(acc@) =~= seq![]);
    if s.is(p, Tok::CBracket) {
        return Ok((acc, p + 1));
    }
    let mut pos = p;
    loop
        invariant
            p <= pos <= s@.len() < usize::MAX,
            arg_list_spec(s@, pos as int, nodes_view(acc@)) == call_args_spec(s@, p as int),
        decreases s@.len() - pos,
    {
        let (a, q) = match parse_statement(s, pos) {
            Ok((Some(a), q)) => (a, q),
            Ok((None, q)) => return Err(fail(s, q, "an argument")),
            Err(e) => return Err(e),
        };
        proof {
            lemma_nodes_view_push(acc@, a);
        }
        acc.push(a);
        if s.is(q, Tok::Comma) && q + 1 > pos {
            pos = q + 1;
        } else if s.is(q, Tok::CBracket) {
            return Ok((acc, q + 1));
        } else {
            return Err(fail(s, q, ", or )"));
        }
    }
}

/// Reads operands separated by `,`, without parentheses.
fn parse_bare_args(s: &Stream, p: usize) -> (r: Result<(Vec<ASTNode>, usize), String>)
    requires
        p <= s@.len() < usize::MAX,
    ensures
        agrees_list(r, bare_args_spec(s@, p as int, seq![]), s@),
    decreases s@.len() - p, 3int,
{
    let mut acc: Vec<ASTNode> = Vec::new();
    assert(nodes_view(acc@) =~= seq![]);
    let mut pos = p;
    loop
        invariant
            p <= pos <= s@.len() < usize::MAX,
            bare_args_spec(s@, pos as int, nodes_view(acc@)) == bare_args_spec(
                s@,
                p as int,
                seq![],
            ),
        decreases s@.len() - pos,
    {
        let (a, q) = match parse_statement(s, pos) {
            Ok((Some(a), q)) => (a, q),
            Ok((None, q)) => return Err(fail(s, q, "an operand")),
            Err(e) => return Err(e),
        };
        proof {
            lemma_nodes_view_push(acc@, a);
        }
        acc.push(a);
        if s.is(q, Tok::Comma) && q + 1 > pos {
            pos = q + 1;
        } else {
            return Ok((acc, q));
        }
    }
}

/// Reads a name and the postfix operators applied to it.
fn parse_any_(s: &Stream, p: usize) -> (r: Result<(ASTNode, usize), String>)
    requires
        p <= s@.len() < usize::MAX,
    ensures
        agrees(r, expr_spec(s@, p as int), s@),
    decreases s@.len() - p, 1int,
{
    if p < s.len() {
        let name = s.text(p);
        parse_postfix(s, p + 1, ASTNode::VariableCall { name })
    } else {
        Err(fail(s, p, "a name"))
    }
}

/// Reads the arguments of a call of `name`, after `(`.
fn parse_function_call_(s: &Stream, p: usize, name: String) -> (r: Result<(ASTNode, usize), String>)
    requires
        p <= s@.len() < usize::MAX,
    ensures
        agrees(r, function_call_spec(s@, p as int, name@), s@),
    decreases s@.len() - p, 5int,
{
    match parse_call_args(s, p) {
        Ok((args, q)) => Ok((ASTNode::FunctionCall { name, args }, q)),
        Err(e) => Err(e),
    }
}

/// Reads the value assigned to `cur`, after `=`.
fn parse_assignment_(s: &Stream, p: usize, cur: ASTNode) -> (r: Result<(ASTNode, usize), String>)
    requires
        p <= s@.len() < usize::MAX,
    ensures
        agrees(r, assignment_spec(s@, p as int, cur@), s@),
    decreases s@.len() - p, 3int,
{
    match parse_statement(s, p) {
        Ok((Some(v), q)) => Ok((ASTNode::Assignment { lval: Box::new(cur), value: Box::new(v) }, q)),
        Ok((None, q)) => Err(fail(s, q, "a value to assign")),
        Err(e) => Err(e),
    }
}

/// Reads the member name of `cur.member`, after `.`.
fn parse_struct_access(s: &Stream, p: usize, cur: ASTNode) -> (r: Result<(ASTNode, usize), String>)
    requires
        p <= s@.len() < usize::MAX,
    ensures
        agrees(r, struct_access_spec(s@, p as int, cur@), s@),
{
    match parse_name(s, p) {
        Ok((member, q)) => Ok((ASTNode::StructAccess { structure: Box::new(cur), member }, q)),
        Err(e) => Err(e),
    }
}

/// Reads the index of `cur[index]`, after `[`, up to and including `]`.
fn parse_array_access(s: &Stream, p: usize, cur: ASTNode) -> (r: Result<(ASTNode, usize), String>)
    requires
        p <= s@.len() < usize::MAX,
    ensures
        agrees(r, array_access_spec(s@, p as int, cur@), s@),
{
    proof {
        reveal_with_fuel(ASTNode::view, 2);
    }
    let (index, q) = match parse_index(s, p, false) {
        Ok(x) => x,
        Err(e) => return Err(e),
    };
    if s.is(q, Tok::CSBracket) {
        Ok((ASTNode::ArrayAccess { name: Box::new(cur), index: Box::new(index) }, q + 1))
    } else {
        Err(fail(s, q, "]"))
    }
}

/// Applies postfix operators to `cur`: a call, `= value`, `.member`,
/// `[index]` or `$index`; stops before `)`, `,` or `;`.
fn parse_postfix(s: &Stream, p: usize, cur: ASTNode) -> (r: Result<(ASTNode, usize), String>)
    requires
        p <= s@.len() < usize::MAX,
    ensures
        agrees(r, postfix_spec(s@, p as int, cur@), s@),
    decreases s@.len() - p, 0int,
{
    proof {
        reveal_with_fuel(ASTNode::view, 2);
    }
    match s.kind(p) {
        Some(Tok::CBracket) | Some(Tok::Comma) | Some(Tok::Semicolon) => Ok((cur, p)),
        Some(Tok::OBracket) => match cur {
            ASTNode::VariableCall { name } => {
                let (call, q) = match parse_function_call_(s, p + 1, name) {
                    Ok(x) => x,
                    Err(e) => return Err(e),
                };
                if p < q && q <= s.len() {
                    parse_postfix(s, q, call)
                } else {
                    Err(fail(s, q, "progress"))
                }
            },
            _ => Err(fail(s, p, "a function name before (")),
        },
        Some(Tok::Equal) => parse_assignment_(s, p + 1, cur),
        Some(Tok::Dot) => {
            let (n, q) = match parse_struct_access(s, p + 1, cur) {
                Ok(x) => x,
                Err(e) => return Err(e),
            };
            if p < q && q <= s.len() {
                parse_postfix(s, q, n)
            } else {
                Err(fail(s, q, "progress"))
            }
        },
        Some(Tok::OSBracket) => {
            let (n, q) = match parse_array_access(s, p + 1, cur) {
                Ok(x) => x,
                Err(e) => return Err(e),
            };
            if p < q && q <= s.len() {
                parse_postfix(s, q, n)
            } else {
                Err(fail(s, q, "progress"))
            }
        },
        Some(Tok::PHPRef) => parse_extern(s, p + 1),
        Some(Tok::Punct) => parse_postfix(s, p + 1, cur),
        _ => Err(fail(s, p, "an operator, ), , or ;")),
    }
}

/// Reads statements until one cannot start; the token there is left.
fn parse_body_(s: &Stream, p: usize) -> (r: Result<(Vec<ASTNode>, usize), String>)
    requires
        p <= s@.len() < usize::MAX,
    ensures
        agrees_list(r, body_spec(s@, p as int, seq![]), s@),
    decreases s@.len() - p, 3int,
{
    let mut acc: Vec<ASTNode> = Vec::new();
    assert(nodes_view(acc@) =~= seq![]);
    let mut pos = p;
    loop
        invariant
            p <= pos <= s@.len() < usize::MAX,
            body_spec(s@, pos as int, nodes_view(acc@)) == body_spec(s@, p as int, seq![]),
        decreases s@.len() - pos,
    {
        match parse_statement(s, pos) {
            Ok((Some(n), q)) => {
                if !(pos < q && q <= s.len()) {
                    return Err(fail(s, q, "progress"));
                }
                proof {
                    lemma_nodes_view_push(acc@, n);
                }
                acc.push(n);
                pos = q;
            },
            Ok((None, q)) => return Ok((acc, q)),
            Err(e) => return Err(e),
        }
    }
}

fn parse_program(s: &Stream) -> (r: Result<ASTNode, String>)
    requires
        s@.len() < usize::MAX,
    ensures
        match r {
            Ok(n) => program_spec(s@, 0, seq![]) == Ok::<Ast, ()>(n@),
            Err(m) => program_spec(s@, 0, seq![]) is Err && reports(s@, m@),
        },
{
    let mut acc: Vec<ASTNode> = Vec::new();
    assert(nodes_view(acc@) =~= seq![]);
    let mut pos: usize = 0;
    loop
        invariant
            pos <= s@.len() < usize::MAX,
            program_spec(s@, pos as int, nodes_view(acc@)) == program_spec(s@, 0, seq![]),
        decreases s@.len() - pos,
    {
        match parse_statement(s, pos) {
            Ok((Some(n), q)) => {
                if !(pos < q && q <= s.len()) {
                    return Err(fail(s, q, "progress"));
                }
                proof {
                    lemma_nodes_view_push(acc@, n);
                }
                acc.push(n);
                pos = q;
            },
            Ok((None, q)) => {
                if q == s.len() {
                    return Ok(ASTNode::Program(acc));
                }
                return Err(fail(s, q, "a statement"));
            },
            Err(e) => return Err(e),
        }
    }
}

/// Parses a program from the coarse kinds and the tokens, read in pairs up
/// to the shorter of the two; the whole stream must be statements.
pub fn parse_(tokens: Vec<Tok>, tokens2: Vec<Token>) -> (r: Result<ASTNode, String>)
    requires
        tokens2.len() < usize::MAX,
    ensures
        match r {
            Ok(n) => program_spec(stream_of(tokens@, tokens2@), 0, seq![]) == Ok::<Ast, ()>(n@),
            Err(m) => program_spec(stream_of(tokens@, tokens2@), 0, seq![]) is Err && reports(
                stream_of(tokens@, tokens2@),
                m@,
            ),
        },
{
    let s = Stream { kinds: tokens, toks: tokens2 };
    parse_program(&s)
}

} // verus!
