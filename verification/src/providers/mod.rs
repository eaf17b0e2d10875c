//! Language models and embeddings, by provider.
pub mod infrastructure;
