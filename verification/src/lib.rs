//! A single-pass compiler for a small C-like language with one integer type:
//! lexing, recursive-descent parsing into an abstract syntax tree, and
//! tree-walking code generation into textual x86-64 assembly.

pub mod token;
pub mod ast;
pub mod grammar;
pub mod lex;
pub mod parser;
pub mod context;
pub mod assembly;
pub mod generator;
