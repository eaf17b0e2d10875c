//! What every part of the service shares: errors, identifiers and time.
pub mod error;
pub mod ids;
pub mod time;
