//! A tree-walking interpreter for a small expression-oriented scripting language:
//! integers, booleans, strings, arrays, maps, first-class functions with closures, and
//! a few built-in functions.
//!
//! - `token`, `lexer`: source text to tokens; `lexer::scan` states what each token is.
//! - `ast`, `parser`: tokens to a syntax tree by precedence climbing; parsed trees agree
//!   with the binding powers (`parser::expr_ok`).
//! - `object`, `ops`: runtime values, their model (`object::Value`), and what operators,
//!   indexing and built-in functions compute.
//! - `environment`: scopes in an arena, each linked to the scope it was opened in.
//! - `semantics`: what evaluating each statement and expression gives.
//! - `evaluator`: the evaluator, proved to follow `semantics`.
//! - `text`: character classes and string building.
pub mod text;
pub mod token;
pub mod lexer;
pub mod ast;
pub mod parser;
pub mod object;
pub mod ops;
pub mod environment;
pub mod evaluator;
pub mod semantics;
