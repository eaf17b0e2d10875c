//! What a memory is, and the rules it obeys wherever it is kept.
pub mod category;
pub mod memory;
pub mod entity_key;
pub mod entity_graph;
pub mod embedder;
pub mod memory_repository;
pub mod recall_query;
pub mod recall_ranker;
