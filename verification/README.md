# llama_cpp_2 (verified core)

The logic of the llama.cpp bindings' backend and batch modules, written in Verus and proved
against its contracts:

- `src/llama_backend.rs`: the once-only backend initialisation protocol (`BackendFlag`,
  `LlamaBackend::mark_init`, `init`, `init_numa`, `free`), the NUMA strategy codes and
  their conversions, and the order in which backend module directories are searched.
- `src/llama_batch.rs`: `LlamaBatch`, the token/embedding batch, with its buffers held as
  vectors; adding tokens and sequences, setting embeddings and logits flags, and the invariant
  that the recorded initialized logits are exactly the flagged positions.
- `src/token.rs`, `src/error.rs`: the token id and the crate-level error.

`app/` holds what talks to llama.cpp through `llama-cpp-sys-2`: the process-wide backend
handle, the copy of a batch into a native `llama_batch`, loading backend modules, and the error
types with their messages.
