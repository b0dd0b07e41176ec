//! A small expression language: a lexer, a recursive-descent parser and a
//! tree-walking interpreter, each stated against a mathematical model.

pub mod token;
pub mod lexer;
pub mod ast;
pub mod parser;
pub mod environment;
pub mod interpreter;
pub mod pipeline;
