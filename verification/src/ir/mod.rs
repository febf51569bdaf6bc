//! The intermediate representation emitted by the compiler.

pub mod event_ir;

pub use event_ir::{IrBlock, IrEvent};
