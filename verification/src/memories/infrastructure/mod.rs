//! What the stores, the REST surface and the tools decide: their statements
//! and requests, and what the rows and replies mean.
pub mod graph_rows;
pub mod graph_run;
pub mod graph_walk;
pub mod http;
pub mod mcp;
pub mod sql;
pub mod sqlite_entity_graph;
pub mod sqlite_graph_backfill_state;
pub mod sqlite_memory_repository;
pub mod sqlite_reindexer;
pub mod sqlite_vector_index;
pub mod tantivy_text_index;
