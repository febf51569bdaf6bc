//! The compiler from terms to the event IR.

pub mod lower;
pub mod replay;

pub use lower::{compile, Compiler};
