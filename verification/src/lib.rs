//! A small Lua interpreter: a parser from Lua source text to an abstract
//! syntax tree, and a tree-walking interpreter over that tree.
pub mod ast;
pub mod text;
pub mod interpreter;
pub mod parser;

pub use ast::AST;
