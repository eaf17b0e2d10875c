//! Memories: storing, indexing, searching, exporting them.
pub mod application;
pub mod domain;
pub mod infrastructure;
