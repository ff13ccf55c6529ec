//! A compiler for a small quantum-oriented language: lexing, parsing and
//! lowering to a flat instruction stream.

pub mod text;
pub mod tokenizer;
pub mod parser;
pub mod grammar;
pub mod table;
pub mod emit;
pub mod semantics;
pub mod code_gen;
pub mod laws;
pub mod compiler;
