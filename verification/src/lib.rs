//! Arithmetic over non-negative integers in infix or postfix notation, with
//! single-letter variables whose definitions are kept as text.

pub mod evaluator;
pub mod lexer;
pub mod message;
pub mod notation;
pub mod parser;
pub mod postfix;
pub mod repl;
pub mod session;
pub mod text;
pub mod variables;
