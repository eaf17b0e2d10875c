//! Language models: three wire formats, and what all of them share.
pub mod anthropic_chat_model;
pub mod ollama_chat_model;
pub mod openai_compat_chat_model;
pub mod retrying_chat_model;
pub mod structured_text;
pub mod transport;
