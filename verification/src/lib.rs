//! Front end of an interpreter for a small C-like scripting language:
//! a scanner that turns source text into tokens and an operator-precedence
//! parser that turns tokens into a syntax tree.
pub mod ast;
pub mod grammar;
pub mod lexer;
pub mod parser;
pub mod token;
