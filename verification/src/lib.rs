//! A small typed scripting language: lexer, symbol table and type-checking parser.
pub mod lexer;
pub mod span;
pub mod types;
pub mod ast;
pub mod symtab;
pub mod source;
pub mod error;
pub mod grammar;
pub mod parser;
pub mod type_check;
pub mod compiler;
pub mod reads;
pub mod value;
pub mod precedence;
pub mod codegen;
pub mod env;
