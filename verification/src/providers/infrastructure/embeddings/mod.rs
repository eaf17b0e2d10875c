//! Embeddings: two remote providers and the local models.
//!
//! A provider answers with decimal numbers. They are held here as doubles, by
//! their bit patterns.
pub mod fastembed_embedder;
pub mod gemini_embedder;
pub mod remote_embedder;
pub mod vectors;
