//! A tiny Lisp-style expression language: a lexer, a recursive-descent parser
//! producing a typed syntax tree, and a tree-walking interpreter with named
//! functions, dynamically scoped variables and multi-way conditionals.
pub mod ast;
pub mod error;
pub mod interpret;
pub mod interpret_variable;
pub mod parser;
pub mod printer;
pub mod tokenizer;
