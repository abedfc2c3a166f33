//! Front end for a minimal Lisp-like language: a scanner that turns source
//! text into tokens, a recursive-descent parser that turns tokens into a
//! syntax tree, and a renderer that lays a tree out as indented lines.

pub mod ast;
pub mod charclass;
pub mod grammar;
pub mod lexer;
pub mod parser;
pub mod printer;
pub mod spelling;
pub mod token;
