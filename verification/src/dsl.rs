//! The configuration language: its tokens, its syntax tree and its parser.
pub mod ast;
pub mod error;
pub mod fnstmt;
pub mod grammar;
pub mod lexer;
pub mod parser;
pub mod read_back;
pub mod references;
pub mod spelling;
pub mod syntax;
pub mod token;
