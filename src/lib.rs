//! A small compiler from a toy imperative language to x86-64 assembly text.
//!
//! The pipeline is a lexer, a recursive-descent parser producing an abstract
//! syntax tree, and a stack-machine code generator.
pub mod utterances;
pub mod error;
pub mod lexer;
pub mod parser;
pub mod assembly;
pub mod transpiler;
pub mod laws;
pub mod ast_display;
pub mod text_counts;
