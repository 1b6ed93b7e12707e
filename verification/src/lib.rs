//! The language core of an interactive command shell: a scanner, a lexer, a
//! precedence-climbing parser and an evaluator for the resulting segment tree.

pub mod kernel;
pub mod parsing;
pub mod peek;
pub mod shell;
pub mod text;
