//! Token identifiers.

use vstd::prelude::*;

verus! {

/// A token id as llama.cpp numbers it (`llama_token`, a 32-bit signed integer).
#[derive(Clone, Copy, Debug, Eq, PartialEq, Structural, Ord, PartialOrd, Hash)]
pub struct LlamaToken(pub i32);

impl LlamaToken {
    /// Create a new token from an i32.
    pub fn new(token_id: i32) -> (t: Self)
        ensures
            t.0 == token_id,
    {
        Self(token_id)
    }
}

} // verus!
