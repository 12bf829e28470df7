//! Errors of the crate as a whole.

use vstd::prelude::*;

verus! {

/// Errors that the crate's top-level operations report.
#[derive(Debug, Clone, Copy, PartialEq, Eq, Structural)]
pub enum LlamaCppError {
    /// The backend was already initialized. This can generally be ignored as initializing the
    /// backend is idempotent.
    BackendAlreadyInitialized,
}

} // verus!
