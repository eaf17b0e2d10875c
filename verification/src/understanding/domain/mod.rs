pub mod chat_model;
