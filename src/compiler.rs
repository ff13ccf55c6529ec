//! The whole pipeline from source text to the generator's environment.
use vstd::prelude::*;
use crate::code_gen::{Comptime, code_gen};
use crate::grammar::program_spec;
use crate::parser::{Tok, from_tokens, parse_, stream_of, tok_of};
use crate::semantics::{Env, code_gen_spec};
use crate::tokenizer::{
    Token, filter50s, filter_all, force_literal, lex, scope_pass, strip_comments, token_views,
};

verus! {

/// The tokens of a source text: comments stripped, scanned, scope-classified
/// and with numeric identifiers forced to literals.
pub open spec fn lexed(src: Seq<char>) -> Seq<(int, Seq<char>)> {
    scope_pass(lex(strip_comments(src))).map_values(|t: (int, Seq<char>)| force_literal(t))
}

/// The stream the grammar reads for a token sequence.
pub open spec fn stream_of_views(tv: Seq<(int, Seq<char>)>) -> Seq<(Tok, Seq<char>, int)> {
    Seq::new(tv.len(), |i: int| (tok_of(tv[i].0), tv[i].1, tv[i].0))
}

/// What compiling a source text yields: the environment after generation,
/// or `None` for a parse or a generation error.
pub open spec fn compile_spec(src: Seq<char>) -> Option<Env> {
    match program_spec(stream_of_views(lexed(src)), 0, seq![]) {
        Ok(a) => code_gen_spec(a),
        Err(_) => None,
    }
}

fn copy_tokens(v: &Vec<Token>) -> (r: Vec<Token>)
    ensures
        token_views(r@) == token_views(v@),
        r.len() == v.len(),
{
    let mut r: Vec<Token> = Vec::new();
    let mut k: usize = 0;
    while k < v.len()
        invariant
            k <= v.len(),
            r.len() == k,
            forall|j: int| 0 <= j < k ==> (#[trigger] r@[j])@ == v@[j]@,
        decreases v.len() - k,
    {
        r.push(Token { token: v[k].token, value: v[k].value.clone() });
        k += 1;
    }
    assert(token_views(r@) =~= token_views(v@));
    r
}

/// Compiles a source text: lexing, the scope pass, parsing and generation.
/// The instruction stream is the `program` of the result.
pub fn compile(source: &str) -> (r: Result<Comptime, String>)
    ensures
        lexed(source@).len() < usize::MAX ==> match r {
            Ok(c) => compile_spec(source@) == Some(c@),
            Err(_) => compile_spec(source@) is None,
        },
{
    let tokens = filter_all(filter50s(crate::tokenizer::tokenize(source)));
    let kinds = from_tokens(copy_tokens(&tokens));
    if tokens.len() == usize::MAX {
        return Err(String::from_str("AST_ERROR: too many tokens"));
    }
    proof {
        let tv = token_views(tokens@);
        assert(tv =~= lexed(source@));
        assert(stream_of(kinds@, tokens@) =~= stream_of_views(tv));
    }
    match parse_(kinds, tokens) {
        Ok(ast) => code_gen(ast),
        Err(e) => Err(e),
    }
}

} // verus!
