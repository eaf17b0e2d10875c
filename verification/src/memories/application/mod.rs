//! The use cases. Each is a machine: it says what to do next, and what
//! follows from each reply. The stores themselves are driven from outside.
pub mod memory_recaller;
pub mod direct_memory_saver;
pub mod memory_finder;
pub mod memory_forgetter;
pub mod memory_updater;
pub mod profile_assembler;
pub mod memory_exporter;
