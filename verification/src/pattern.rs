//! The pattern languages: a shared lexer and the dialects built on it.

pub mod error;
pub mod escape;
pub mod eval;
pub mod lexer;
pub mod parser;
pub mod range;
pub mod reader;
pub mod sequence;
pub mod substitution;
pub mod symbol;
pub mod transform;
pub mod variable;
