//! A small translator from a subset of C to Rust source text.

pub mod chars;
pub mod error;
pub mod text;
pub mod token;
pub mod transform;
