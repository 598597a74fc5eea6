//! Parsing of fully parenthesised arithmetic expressions into a syntax tree,
//! and the order and domain checks of their evaluation.
pub mod ast;
pub mod evaluation;
pub mod grammar;

pub use ast::{Expr, parse_expression};
pub use grammar::Grammar;
