//! How the service is configured.
pub mod config;
