//! Extensions to standard interfaces.

pub mod iter;
