//! Lexer and first-pass parser for RISC-V assembly source text.
pub mod chars;
pub mod token;
pub mod lexer;
pub mod parser;
pub mod ir;
pub mod config;
