//! A small compiler for single-equation expressions: lexing, precedence
//! climbing parsing, validation, simplification, symbolic differentiation
//! and code generation for a scripting runtime.
pub mod lexer;
pub mod ast;
pub mod diagnostic;
pub mod registry;
pub mod codegen;
pub mod simplify;
pub mod derivative;
pub mod validator;
pub mod parser;
pub mod results;
