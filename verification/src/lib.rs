//! The front end of a compiler for a wordy toy language: it checks the
//! formatting of a text, tokenizes and parses it, resolves its names, checks
//! its types, and lowers it to three-address instructions.

pub mod agreement;
pub mod chars;
pub mod compiler;
pub mod decimal;
pub mod errors;
pub mod formatting;
pub mod ir;
pub mod lexer;
pub mod llvm_gen;
pub mod parser;
pub mod semantic_analysis;
