//! Long-term memory for agents: what a memory is, how it is stored, found,
//! ranked, shown and forgotten, and how the providers around it are spoken to.
pub mod bootstrap;
pub mod json;
pub mod memories;
pub mod order;
pub mod providers;
pub mod shared;
pub mod text;
pub mod understanding;
