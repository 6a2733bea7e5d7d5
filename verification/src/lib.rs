//! Front end of a small expression language: a lexer that turns source text
//! into tokens, and a recursive-descent parser that turns tokens into an
//! abstract syntax tree, with structured diagnostics carrying line/column
//! positions.

pub mod ast;
pub mod binary_tree;
pub mod laws;
pub mod lexer;
pub mod parser;
pub mod result;
pub mod text;
