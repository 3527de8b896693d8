//! An arithmetic expression engine: a lexer, a precedence-climbing parser,
//! the syntax tree it builds, and an evaluator that resolves the tree against
//! mutable variable bindings.
//!
//! Each stage is specified over the characters of its input: `lexer::scan`
//! gives the token at a position, `parser::parse_text` the tree of a text,
//! and `eval::value` the value of a tree and the bindings after it. The
//! numbers themselves come from an [`eval::Arithmetic`] that the caller
//! supplies.

pub mod token;
pub mod lexer;
pub mod ast;
pub mod parser;
pub mod render;
pub mod env;
pub mod eval;
