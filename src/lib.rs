//! A chunked blob store with an upload registry and an application index.
//!
//! Files are split into chunks of at most [`types::CHUNK_MAX_SIZE`] bytes.
//! Chunks live in one flat key space, in an `ic_stable_structures` map on a
//! memory of its own; their keys are recycled after an upload is deleted.
//! Upload keys are never reused.

pub mod assoc;
pub mod chunk_store;
pub mod types;
pub mod store;
pub mod laws;
