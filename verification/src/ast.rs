//! Syntax-tree nodes and what later passes learn about them.

pub mod ast;
pub mod laws;
