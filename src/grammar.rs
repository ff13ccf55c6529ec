//! The grammar of the source language, as spec functions over the token
//! stream. Each returns the node it reads and the position after it, or an
//! error. The stream holds, for each token, its coarse kind, its text and its
//! lexer kind.
use vstd::prelude::*;
use crate::parser::{Ast, Tok};
use crate::tokenizer::digits_end;

verus! {

/// Lexer kind of the `let` keyword.
pub const LET_KIND: i32 = 16;

/// Lexer kind of the `const` keyword.
pub const CONST_KIND: i32 = 17;

/// Declaration kind recorded for a function parameter.
pub const PARAM_DECL: i32 = 11;

pub open spec fn kind_at(s: Seq<(Tok, Seq<char>, int)>, p: int) -> Option<Tok> {
    if 0 <= p < s.len() {
        Some(s[p].0)
    } else {
        None
    }
}

pub open spec fn is_kind(s: Seq<(Tok, Seq<char>, int)>, p: int, k: Tok) -> bool {
    kind_at(s, p) == Some(k)
}

pub open spec fn text_at(s: Seq<(Tok, Seq<char>, int)>, p: int) -> Seq<char> {
    s[p].1
}

/// The value of the decimal digits `t[a..b]`.
pub open spec fn dec_value(t: Seq<char>, a: int, b: int) -> int
    decreases b - a,
{
    if b <= a {
        0
    } else {
        dec_value(t, a, b - 1) * 10 + ((t[b - 1] as int) - ('0' as int))
    }
}

/// The integer that `t` spells, as the standard library's parser for `i32`
/// (`signed`) or `u32` reads it: an optional sign (`-` only when signed),
/// then at least one digit, the value in the type's range.
pub open spec fn int_of(t: Seq<char>, signed: bool) -> Option<int> {
    let neg = signed && t.len() > 0 && t[0] == '-';
    let st: int = if t.len() > 0 && (t[0] == '+' || neg) {
        1
    } else {
        0
    };
    if st < t.len() && digits_end(t, st) == t.len() {
        let m = dec_value(t, st, t.len() as int);
        let v = if neg {
            -m
        } else {
            m
        };
        if (signed && -2147483648 <= v <= 2147483647) || (!signed && 0 <= v <= 4294967295) {
            Some(v)
        } else {
            None
        }
    } else {
        None
    }
}

/// A declaration identifier: its text.
pub open spec fn name_spec(s: Seq<(Tok, Seq<char>, int)>, p: int) -> Result<(Seq<char>, int), ()> {
    if is_kind(s, p, Tok::New) {
        Ok((text_at(s, p), p + 1))
    } else {
        Err(())
    }
}

/// An index: a literal (`Num` when `in_type`, else `ArrayIndex`), an extern
/// placeholder `$n` / `$name`, or a loop variable.
pub open spec fn index_spec(s: Seq<(Tok, Seq<char>, int)>, p: int, in_type: bool) -> Result<(Ast, int), ()> {
    match kind_at(s, p) {
        Some(Tok::Num) => {
            match int_of(text_at(s, p), in_type) {
                Some(n) => if in_type {
                    Ok((Ast::Num(n), p + 1))
                } else {
                    Ok((Ast::ArrayIndex(n), p + 1))
                },
                None => Err(()),
            }
        },
        Some(Tok::PHPRef) => {
            match kind_at(s, p + 1) {
                Some(Tok::Num) => match int_of(text_at(s, p + 1), false) {
                    Some(n) => Ok(
                        (Ast::ExternArg { idx: Box::new(Ast::ArrayIndex(n)) }, p + 2),
                    ),
                    None => Err(()),
                },
                Some(Tok::Old) => Ok(
                    (
                        Ast::ExternArg {
                            idx: Box::new(Ast::IntCall { name: text_at(s, p + 1) }),
                        },
                        p + 2,
                    ),
                ),
                _ => Err(()),
            }
        },
        Some(Tok::Old) => Ok((Ast::IntCall { name: text_at(s, p) }, p + 1)),
        _ => Err(()),
    }
}

/// An optional `[ index ]` after a base type.
pub open spec fn suffix_spec(s: Seq<(Tok, Seq<char>, int)>, p: int, base: Ast) -> Result<(Ast, int), ()> {
    if is_kind(s, p, Tok::OSBracket) {
        match index_spec(s, p + 1, true) {
            Ok((sz, q)) => if is_kind(s, q, Tok::CSBracket) {
                Ok((Ast::ArrayType { type_: Box::new(base), size: Box::new(sz) }, q + 1))
            } else {
                Err(())
            },
            Err(_) => Err(()),
        }
    } else {
        Ok((base, p))
    }
}

/// A type: `void`, `qdit`, `qbit` or a type name, each with an optional
/// array suffix, or `*` and a type.
pub open spec fn type_spec(s: Seq<(Tok, Seq<char>, int)>, p: int) -> Result<(Ast, int), ()>
    decreases s.len() - p,
{
    match kind_at(s, p) {
        Some(Tok::Void) => suffix_spec(s, p + 1, Ast::Void),
        Some(Tok::Qudit) => suffix_spec(s, p + 1, Ast::Qdit),
        Some(Tok::Qbit) => suffix_spec(s, p + 1, Ast::Qbit),
        Some(Tok::Old) => suffix_spec(
            s,
            p + 1,
            Ast::Type { name: text_at(s, p), specifier: Box::new(Ast::Custom) },
        ),
        Some(Tok::Star) => match type_spec(s, p + 1) {
            Ok((t, q)) => Ok((Ast::PointerType { type_: Box::new(t) }, q)),
            Err(_) => Err(()),
        },
        _ => Err(()),
    }
}

/// Parameters `name : type`, separated by `,`, up to and including `)`.
pub open spec fn params_spec(s: Seq<(Tok, Seq<char>, int)>, p: int, acc: Seq<Ast>) -> Result<(Seq<Ast>, int), ()>
    decreases s.len() - p,
{
    match name_spec(s, p) {
        Ok((nm, p1)) => if is_kind(s, p1, Tok::DoublePoint) {
            match type_spec(s, p1 + 1) {
                Ok((t, q)) => {
                    let acc2 = acc.push(
                        Ast::VariableDecl {
                            name: nm,
                            value: None,
                            type_: Some(Box::new(t)),
                            token: PARAM_DECL as int,
                        },
                    );
                    if is_kind(s, q, Tok::Comma) && q + 1 > p {
                        params_spec(s, q + 1, acc2)
                    } else if is_kind(s, q, Tok::CBracket) {
                        Ok((acc2, q + 1))
                    } else {
                        Err(())
                    }
                },
                Err(_) => Err(()),
            }
        } else {
            Err(())
        },
        Err(_) => Err(()),
    }
}

/// A parameter list after its `(`.
pub open spec fn param_list_spec(s: Seq<(Tok, Seq<char>, int)>, p: int) -> Result<(Seq<Ast>, int), ()> {
    if is_kind(s, p, Tok::CBracket) {
        Ok((seq![], p + 1))
    } else {
        params_spec(s, p, seq![])
    }
}

/// The operand after `$`: a literal index or a loop variable.
pub open spec fn extern_spec(s: Seq<(Tok, Seq<char>, int)>, p: int) -> Result<(Ast, int), ()> {
    if 0 <= p < s.len() {
        match int_of(text_at(s, p), false) {
            Some(n) => Ok((Ast::ExternArg { idx: Box::new(Ast::ArrayIndex(n)) }, p + 1)),
            None => Ok((Ast::ExternArg { idx: Box::new(Ast::IntCall { name: text_at(s, p) }) }, p + 1)),
        }
    } else {
        Err(())
    }
}

/// The end of a range `start .. end`, from its `..`.
pub open spec fn range_spec(s: Seq<(Tok, Seq<char>, int)>, p: int, start: int) -> Result<(Option<Ast>, int), ()> {
    if is_kind(s, p, Tok::DotDot) && p + 1 < s.len() {
        match int_of(text_at(s, p + 1), true) {
            Some(e) => Ok(
                (
                    Some(Ast::Range { start: Box::new(Ast::Num(start)), end: Box::new(Ast::Num(e)) }),
                    p + 2,
                ),
            ),
            None => Err(()),
        }
    } else {
        Err(())
    }
}

pub open spec fn some_of(r: Result<(Ast, int), ()>) -> Result<(Option<Ast>, int), ()> {
    match r {
        Ok((n, q)) => Ok((Some(n), q)),
        Err(_) => Err(()),
    }
}

/// The block of a body, absent when the body is empty.
pub open spec fn block_of(b: Seq<Ast>) -> Option<Box<Ast>> {
    if b.len() == 0 {
        None
    } else {
        Some(Box::new(Ast::Block(b)))
    }
}

/// One statement, or none where the next token starts no statement. Empty
/// statements `;`, stray `)` and stray punctuation are skipped.
pub open spec fn stmt_spec(s: Seq<(Tok, Seq<char>, int)>, p: int) -> Result<(Option<Ast>, int), ()>
    decreases s.len() - p, 2int,
{
    match kind_at(s, p) {
        None => Ok((None, p)),
        Some(k) => match k {
            Tok::Qbit | Tok::Void | Tok::Qudit => some_of(fn_def_spec(s, p)),
            Tok::For => some_of(for_spec(s, p + 1)),
            Tok::VarDecl | Tok::ConstDecl => some_of(var_decl_spec(s, p)),
            Tok::Struct => some_of(struct_spec(s, p + 1)),
            Tok::GateCall => some_of(gate_spec(s, p)),
            Tok::Return => some_of(return_stmt_spec(s, p + 1)),
            Tok::Old => some_of(expr_spec(s, p)),
            Tok::Star => some_of(deref_spec(s, p + 1)),
            Tok::Reference => some_of(reference_spec(s, p + 1)),
            Tok::Num => match int_of(text_at(s, p), true) {
                Some(n) => if is_kind(s, p + 1, Tok::DotDot) {
                    range_spec(s, p + 1, n)
                } else {
                    Ok((Some(Ast::Num(n)), p + 1))
                },
                None => Err(()),
            },
            Tok::CBracket | Tok::Semicolon | Tok::Punct => stmt_spec(s, p + 1),
            Tok::PHPRef => some_of(extern_spec(s, p + 1)),
            _ => Ok((None, p)),
        },
    }
}

/// The value of a `return`, after `return`.
pub open spec fn return_stmt_spec(s: Seq<(Tok, Seq<char>, int)>, p: int) -> Result<(Ast, int), ()>
    decreases s.len() - p, 3int,
{
    match stmt_spec(s, p) {
        Ok((Some(v), q)) => Ok((Ast::Return(Box::new(v)), q)),
        _ => Err(()),
    }
}

/// The operand of `*`, after `*`.
pub open spec fn deref_spec(s: Seq<(Tok, Seq<char>, int)>, p: int) -> Result<(Ast, int), ()>
    decreases s.len() - p, 3int,
{
    match stmt_spec(s, p) {
        Ok((Some(v), q)) => Ok((Ast::Dereference { value: Box::new(v) }, q)),
        _ => Err(()),
    }
}

/// The operand of `&`, after `&`.
pub open spec fn reference_spec(s: Seq<(Tok, Seq<char>, int)>, p: int) -> Result<(Ast, int), ()>
    decreases s.len() - p, 3int,
{
    match stmt_spec(s, p) {
        Ok((Some(v), q)) => Ok((Ast::Reference { value: Box::new(v) }, q)),
        _ => Err(()),
    }
}

/// `type name ( params ) { body }`.
pub open spec fn fn_def_spec(s: Seq<(Tok, Seq<char>, int)>, p: int) -> Result<(Ast, int), ()>
    decreases s.len() - p, 1int,
{
    match type_spec(s, p) {
        Ok((t, p1)) => match name_spec(s, p1) {
            Ok((nm, p2)) => if is_kind(s, p2, Tok::OBracket) {
                match param_list_spec(s, p2 + 1) {
                    Ok((ps, p3)) => if is_kind(s, p3, Tok::OCBracket) && p3 + 1 > p {
                        match body_spec(s, p3 + 1, seq![]) {
                            Ok((b, p4)) => if is_kind(s, p4, Tok::CCBracket) {
                                Ok(
                                    (
                                        Ast::FunctionDef {
                                            name: nm,
                                            ret_type: Box::new(t),
                                            in_type: ps,
                                            body: block_of(b),
                                        },
                                        p4 + 1,
                                    ),
                                )
                            } else {
                                Err(())
                            },
                            Err(_) => Err(()),
                        }
                    } else {
                        Err(())
                    },
                    Err(_) => Err(()),
                }
            } else {
                Err(())
            },
            Err(_) => Err(()),
        },
        Err(_) => Err(()),
    }
}

/// `( alias in container ) { body }`, after `for`.
pub open spec fn for_spec(s: Seq<(Tok, Seq<char>, int)>, p: int) -> Result<(Ast, int), ()>
    decreases s.len() - p, 1int,
{
    if is_kind(s, p, Tok::OBracket) {
        match name_spec(s, p + 1) {
            Ok((alias, p2)) => if is_kind(s, p2, Tok::In) {
                match stmt_spec(s, p2 + 1) {
                    Ok((Some(c), p3)) => if is_kind(s, p3, Tok::CBracket) && is_kind(
                        s,
                        p3 + 1,
                        Tok::OCBracket,
                    ) && p3 + 2 > p {
                        match body_spec(s, p3 + 2, seq![]) {
                            Ok((b, p4)) => if is_kind(s, p4, Tok::CCBracket) {
                                Ok(
                                    (
                                        Ast::For {
                                            container: Box::new(c),
                                            alias,
                                            body: block_of(b),
                                        },
                                        p4 + 1,
                                    ),
                                )
                            } else {
                                Err(())
                            },
                            Err(_) => Err(()),
                        }
                    } else {
                        Err(())
                    },
                    _ => Err(()),
                }
            } else {
                Err(())
            },
            Err(_) => Err(()),
        }
    } else {
        Err(())
    }
}

/// `let` or `const`, a new name, an optional `: type`, an optional
/// `= value`; the closing `;` is left for the statement loop.
pub open spec fn var_decl_spec(s: Seq<(Tok, Seq<char>, int)>, p: int) -> Result<(Ast, int), ()>
    decreases s.len() - p, 1int,
{
    let tok = if 0 <= p < s.len() {
        s[p].2
    } else {
        0
    };
    match name_spec(s, p + 1) {
        Ok((nm, p1)) => match kind_at(s, p1) {
            Some(Tok::DoublePoint) => match type_spec(s, p1 + 1) {
                Ok((t, q)) => if is_kind(s, q, Tok::Semicolon) {
                    Ok(
                        (
                            Ast::VariableDecl {
                                name: nm,
                                value: None,
                                type_: Some(Box::new(t)),
                                token: tok,
                            },
                            q,
                        ),
                    )
                } else if is_kind(s, q, Tok::Equal) && q + 1 > p {
                    match stmt_spec(s, q + 1) {
                        Ok((Some(v), q2)) => if is_kind(s, q2, Tok::Semicolon) {
                            Ok(
                                (
                                    Ast::VariableDecl {
                                        name: nm,
                                        value: Some(Box::new(v)),
                                        type_: Some(Box::new(t)),
                                        token: tok,
                                    },
                                    q2,
                                ),
                            )
                        } else {
                            Err(())
                        },
                        _ => Err(()),
                    }
                } else {
                    Err(())
                },
                Err(_) => Err(()),
            },
            Some(Tok::Semicolon) => Ok(
                (Ast::VariableDecl { name: nm, value: None, type_: None, token: tok }, p1),
            ),
            Some(Tok::Equal) => match stmt_spec(s, p1 + 1) {
                Ok((Some(v), q2)) => if is_kind(s, q2, Tok::Semicolon) {
                    Ok(
                        (
                            Ast::VariableDecl {
                                name: nm,
                                value: Some(Box::new(v)),
                                type_: None,
                                token: tok,
                            },
                            q2,
                        ),
                    )
                } else {
                    Err(())
                },
                _ => Err(()),
            },
            _ => Err(()),
        },
        Err(_) => Err(()),
    }
}

/// `name { members }`, after `struct`.
pub open spec fn struct_spec(s: Seq<(Tok, Seq<char>, int)>, p: int) -> Result<(Ast, int), ()>
    decreases s.len() - p, 1int,
{
    match name_spec(s, p) {
        Ok((nm, p1)) => if is_kind(s, p1, Tok::OCBracket) {
            match members_spec(s, p1 + 1, seq![]) {
                Ok((ms, q)) => Ok((Ast::Struct { name: nm, types: ms }, q)),
                Err(_) => Err(()),
            }
        } else {
            Err(())
        },
        Err(_) => Err(()),
    }
}

/// Member declarations, each ended by `;`, up to and including `}`.
pub open spec fn members_spec(s: Seq<(Tok, Seq<char>, int)>, p: int, acc: Seq<Ast>) -> Result<(Seq<Ast>, int), ()>
    decreases s.len() - p, 2int,
{
    match kind_at(s, p) {
        Some(Tok::CCBracket) => Ok((acc, p + 1)),
        Some(Tok::VarDecl) | Some(Tok::ConstDecl) => match var_decl_spec(s, p) {
            Ok((d, q)) => if is_kind(s, q, Tok::Semicolon) && q + 1 > p {
                members_spec(s, q + 1, acc.push(d))
            } else {
                Err(())
            },
            Err(_) => Err(()),
        },
        _ => Err(()),
    }
}

/// A gate mnemonic and its operands, in parentheses or bare up to the end
/// of the statement.
pub open spec fn gate_spec(s: Seq<(Tok, Seq<char>, int)>, p: int) -> Result<(Ast, int), ()>
    decreases s.len() - p, 1int,
{
    if 0 <= p < s.len() {
        let nm = text_at(s, p);
        if is_kind(s, p + 1, Tok::OBracket) {
            match call_args_spec(s, p + 2) {
                Ok((a, q)) => Ok((Ast::GateCall { name: nm, args: a }, q)),
                Err(_) => Err(()),
            }
        } else {
            match bare_args_spec(s, p + 1, seq![]) {
                Ok((a, q)) => Ok((Ast::GateCall { name: nm, args: a }, q)),
                Err(_) => Err(()),
            }
        }
    } else {
        Err(())
    }
}

/// Arguments after `(`, separated by `,`, up to and including `)`.
pub open spec fn call_args_spec(s: Seq<(Tok, Seq<char>, int)>, p: int) -> Result<(Seq<Ast>, int), ()>
    decreases s.len() - p, 4int,
{
    if is_kind(s, p, Tok::CBracket) {
        Ok((seq![], p + 1))
    } else {
        arg_list_spec(s, p, seq![])
    }
}

pub open spec fn arg_list_spec(s: Seq<(Tok, Seq<char>, int)>, p: int, acc: Seq<Ast>) -> Result<(Seq<Ast>, int), ()>
    decreases s.len() - p, 3int,
{
    match stmt_spec(s, p) {
        Ok((Some(a), q)) => if is_kind(s, q, Tok::Comma) && q + 1 > p {
            arg_list_spec(s, q + 1, acc.push(a))
        } else if is_kind(s, q, Tok::CBracket) {
            Ok((acc.push(a), q + 1))
        } else {
            Err(())
        },
        _ => Err(()),
    }
}

/// Operands separated by `,`, without parentheses.
pub open spec fn bare_args_spec(s: Seq<(Tok, Seq<char>, int)>, p: int, acc: Seq<Ast>) -> Result<(Seq<Ast>, int), ()>
    decreases s.len() - p, 3int,
{
    match stmt_spec(s, p) {
        Ok((Some(a), q)) => if is_kind(s, q, Tok::Comma) && q + 1 > p {
            bare_args_spec(s, q + 1, acc.push(a))
        } else {
            Ok((acc.push(a), q))
        },
        _ => Err(()),
    }
}

/// A name and its postfix operators.
pub open spec fn expr_spec(s: Seq<(Tok, Seq<char>, int)>, p: int) -> Result<(Ast, int), ()>
    decreases s.len() - p, 1int,
{
    if 0 <= p < s.len() {
        postfix_spec(s, p + 1, Ast::VariableCall { name: text_at(s, p) })
    } else {
        Err(())
    }
}

/// A call of `name`: its arguments after `(`, up to and including `)`.
pub open spec fn function_call_spec(s: Seq<(Tok, Seq<char>, int)>, p: int, name: Seq<char>) -> Result<(Ast, int), ()>
    decreases s.len() - p, 5int,
{
    match call_args_spec(s, p) {
        Ok((a, q)) => Ok((Ast::FunctionCall { name, args: a }, q)),
        Err(_) => Err(()),
    }
}

/// `cur = value`, from after `=`.
pub open spec fn assignment_spec(s: Seq<(Tok, Seq<char>, int)>, p: int, cur: Ast) -> Result<(Ast, int), ()>
    decreases s.len() - p, 3int,
{
    match stmt_spec(s, p) {
        Ok((Some(v), q)) => Ok((Ast::Assignment { lval: Box::new(cur), value: Box::new(v) }, q)),
        _ => Err(()),
    }
}

/// `cur.member`, from after `.`.
pub open spec fn struct_access_spec(s: Seq<(Tok, Seq<char>, int)>, p: int, cur: Ast) -> Result<(Ast, int), ()> {
    match name_spec(s, p) {
        Ok((m, q)) => Ok((Ast::StructAccess { structure: Box::new(cur), member: m }, q)),
        Err(_) => Err(()),
    }
}

/// `cur[index]`, from after `[`.
pub open spec fn array_access_spec(s: Seq<(Tok, Seq<char>, int)>, p: int, cur: Ast) -> Result<(Ast, int), ()> {
    match index_spec(s, p, false) {
        Ok((i, q)) => if is_kind(s, q, Tok::CSBracket) {
            Ok((Ast::ArrayAccess { name: Box::new(cur), index: Box::new(i) }, q + 1))
        } else {
            Err(())
        },
        Err(_) => Err(()),
    }
}

/// Postfix operators applied to `cur`: a call, `= value`, `.member`,
/// `[index]`, or `$index`; stray punctuation is skipped; ends before `)`,
/// `,` or `;`.
pub open spec fn postfix_spec(s: Seq<(Tok, Seq<char>, int)>, p: int, cur: Ast) -> Result<(Ast, int), ()>
    decreases s.len() - p, 0int,
{
    match kind_at(s, p) {
        Some(Tok::CBracket) | Some(Tok::Comma) | Some(Tok::Semicolon) => Ok((cur, p)),
        Some(Tok::OBracket) => match cur {
            Ast::VariableCall { name } => match function_call_spec(s, p + 1, name) {
                Ok((c, q)) => if p < q <= s.len() {
                    postfix_spec(s, q, c)
                } else {
                    Err(())
                },
                Err(_) => Err(()),
            },
            _ => Err(()),
        },
        Some(Tok::Equal) => assignment_spec(s, p + 1, cur),
        Some(Tok::Dot) => match struct_access_spec(s, p + 1, cur) {
            Ok((n, q)) => if p < q <= s.len() {
                postfix_spec(s, q, n)
            } else {
                Err(())
            },
            Err(_) => Err(()),
        },
        Some(Tok::OSBracket) => match array_access_spec(s, p + 1, cur) {
            Ok((n, q)) => if p < q <= s.len() {
                postfix_spec(s, q, n)
            } else {
                Err(())
            },
            Err(_) => Err(()),
        },
        Some(Tok::PHPRef) => extern_spec(s, p + 1),
        Some(Tok::Punct) => postfix_spec(s, p + 1, cur),
        _ => Err(()),
    }
}

/// Statements until one cannot start; the token there is left.
pub open spec fn body_spec(s: Seq<(Tok, Seq<char>, int)>, p: int, acc: Seq<Ast>) -> Result<(Seq<Ast>, int), ()>
    decreases s.len() - p, 3int,
{
    match stmt_spec(s, p) {
        Ok((Some(n), q)) => if p < q <= s.len() {
            body_spec(s, q, acc.push(n))
        } else {
            Err(())
        },
        Ok((None, q)) => Ok((acc, q)),
        Err(_) => Err(()),
    }
}

/// Statements up to the end of the stream.
pub open spec fn program_spec(s: Seq<(Tok, Seq<char>, int)>, p: int, acc: Seq<Ast>) -> Result<Ast, ()>
    decreases s.len() - p,
{
    match stmt_spec(s, p) {
        Ok((Some(n), q)) => if p < q <= s.len() {
            program_spec(s, q, acc.push(n))
        } else {
            Err(())
        },
        Ok((None, q)) => if q == s.len() {
            Ok(Ast::Program(acc))
        } else {
            Err(())
        },
        Err(_) => Err(()),
    }
}

} // verus!
