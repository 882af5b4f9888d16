//! The concrete syntax tree of Vinyl source text: tokens, nodes and the
//! parser that builds a tree from a character sequence.

pub mod grammar;
pub mod lexer;
pub mod parser;
pub mod tree;
