//! A small indentation-sensitive language: a lexer that turns leading spaces
//! into block tokens, a recursive-descent parser, and a tree-walking
//! interpreter over one flat table of bindings.
pub mod ast;
pub mod environment;
pub mod interpreter;
pub mod laws;
pub mod lexer;
pub mod parser;
pub mod semantics;
pub mod text;
pub mod token;
pub mod value;
