//! The type system: admissibility certificates and their checker.

pub mod checker;
pub mod ty;

pub use ty::Type;
pub use checker::{Context, TypeMode, TypeError, infer, check, is_admissible, infer_closed, infer_open};
