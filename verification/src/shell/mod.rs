//! The shell language: its tokens, its lexer, its parser and its evaluator.

pub mod config;
pub mod evaluation;
pub mod grammar;
pub mod levels;
pub mod lexicon;
pub mod lines;
pub mod parsing;
pub mod repl;
pub mod segments;
pub mod theorems;
