//! A tiny C compiler: tokens to a value, a value to machine code.

pub mod codegen;
pub mod lexer;
pub mod parser;
