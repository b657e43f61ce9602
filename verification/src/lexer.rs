//! The tokenizer: character classes, the token vocabulary, the lexical
//! grammar as specification functions, and the cursor that implements it.

pub mod chars;
pub mod grammar;
pub mod laws;
pub mod lexer;
pub mod text;
pub mod tokens;
