//! A small ahead-of-time compiler: source text is cut into tokens, the tokens
//! are parsed into a tree of statements, and the tree is written out as a
//! binary module for a stack machine.
pub mod error;
pub mod text;
pub mod lexer;
pub mod ast;
pub mod grammar;
pub mod parser;
pub mod numeric;
pub mod module;
pub mod codegen;
pub mod compiler;
