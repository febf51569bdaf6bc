//! The event machine that runs compiled IR.

pub mod machine;

pub use machine::{Machine, VmError};
