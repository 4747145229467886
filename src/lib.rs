//! A tree-walking interpreter for the Monkey scripting language: a lexer, a
//! Pratt parser, the syntax tree with its textual form, and an evaluator with
//! lexical environments, closures, arrays, hashes and built-in functions.
//! Every stage is specified by a spec function over a mathematical model and
//! the executable code is proved to compute exactly that.
pub mod token;
pub mod lexer;
pub mod basics;
pub mod ast;
pub mod grammar;
pub mod parser;
pub mod errors;
pub mod object;
pub mod environment;
pub mod semantics;
pub mod builtins;
pub mod evaluator;
pub mod laws;
pub mod roundtrip;
