//! Errors of the runtime core.

use vstd::prelude::*;
use crate::kernel::event::Symbol;
use crate::text::{nat_text, push_decimal};

verus! {

/// Errors of the runtime core.
#[derive(Debug, PartialEq, Eq)]
pub enum CoreError {
    /// Attempted to pop a symbol not in the option space.
    UnavailableOption(Symbol),
    /// Attempted to collapse a term that is not admissible.
    InadmissibleCollapse(Symbol),
    /// History replay mismatch: compiled and interpreted paths diverged.
    HistoryMismatch { expected: usize, got: usize },
    /// Scope closed before it was opened.
    UnbalancedScope(Symbol),
}

/// The display text of a core error.
pub open spec fn core_error_text(e: CoreError) -> Seq<char> {
    match e {
        CoreError::UnavailableOption(s) => "cannot pop unavailable option: "@ + s@,
        CoreError::InadmissibleCollapse(s) => "inadmissible collapse: "@ + s@,
        CoreError::HistoryMismatch { expected, got } => "history mismatch: expected "@ + nat_text(
            expected as nat,
        ) + " events, got "@ + nat_text(got as nat),
        CoreError::UnbalancedScope(s) => "unbalanced scope: "@ + s@,
    }
}

impl CoreError {
    /// The display text of the error.
    pub fn to_text(&self) -> (r: String)
        ensures
            r@ == core_error_text(*self),
    {
        let mut out = String::new();
        match self {
            CoreError::UnavailableOption(s) => {
                out.append("cannot pop unavailable option: ");
                out.append(s.0.as_str());
            },
            CoreError::InadmissibleCollapse(s) => {
                out.append("inadmissible collapse: ");
                out.append(s.0.as_str());
            },
            CoreError::HistoryMismatch { expected, got } => {
                out.append("history mismatch: expected ");
                push_decimal(&mut out, *expected as u128);
                out.append(" events, got ");
                push_decimal(&mut out, *got as u128);
            },
            CoreError::UnbalancedScope(s) => {
                out.append("unbalanced scope: ");
                out.append(s.0.as_str());
            },
        }
        assert(out@ =~= core_error_text(*self));
        out
    }
}

} // verus!
