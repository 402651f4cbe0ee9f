//! Syntax of the fin language: a lexer, a parser that builds a lossless
//! concrete syntax tree, and a typed view of that tree.

pub mod astgen;
pub mod cstgen;
pub mod text;
pub mod unicode;
pub mod green;
