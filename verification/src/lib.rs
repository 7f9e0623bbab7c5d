//! A verified translator for a minimal imperative language — integer
//! variables, arithmetic and comparison expressions, `let` bindings,
//! `if`/`else` and `while` — into linear instructions for a stack-based
//! virtual machine. The pipeline runs in three stages, each proved against
//! a mathematical model of its output: lexical analysis ([`lexer`]),
//! recursive-descent parsing into an abstract syntax tree ([`parser`]), and
//! tree-to-instruction code generation ([`codegen`]).

pub mod codegen;
pub mod lexer;
pub mod parser;
pub mod strutil;
