//! Lexical front end of a small experimental language: a tokenizer that turns
//! source text into positioned tokens, and syntax-tree nodes that carry typed
//! annotations.

pub mod ast;
pub mod errors;
pub mod extensions;
pub mod lexer;
