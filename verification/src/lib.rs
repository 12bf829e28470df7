//! Verified core of the llama.cpp bindings: the backend initialisation
//! protocol, the NUMA strategy codes, and the token/embedding batch buffer.

pub mod error;
pub mod llama_backend;
pub mod token;

pub use error::LlamaCppError;
pub mod llama_batch;
