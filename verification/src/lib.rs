//! A small interpreter core for typed and untyped lambda-calculus-style
//! languages with booleans, natural numbers, and one-argument function
//! abstraction.
//!
//! Terms are represented with de Bruijn indices, so substitution never has
//! to rename variables to avoid capture.  The crate provides the term
//! models, the shift/substitution engine, a small-step call-by-value
//! evaluator iterated to normal form, a syntax-directed type checker, a
//! pretty-printer, and the lexer and recursive-descent parser that build
//! terms from source bytes.

pub mod ast;
pub mod err;
pub mod info;
pub mod initial;
pub mod laws;
pub mod lexer;
pub mod parser;
pub mod span;
pub mod syntax;
pub mod untyped;
mod util;
