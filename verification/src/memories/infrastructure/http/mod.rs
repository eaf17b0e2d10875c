//! The REST surface: what requests mean and what is answered.
pub mod dto;
pub mod handlers;
