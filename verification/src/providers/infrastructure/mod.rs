pub mod chat;
pub mod embeddings;
