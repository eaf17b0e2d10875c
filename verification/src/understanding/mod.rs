//! What language models are asked.
pub mod domain;
