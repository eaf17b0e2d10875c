[package]
name = "recuerdos_ai"
version = "0.1.0"
edition = "2021"
publish = false

[dependencies]
async-trait = "0.1"
axum = { version = "=0.8.9", default-features = false, features = ["json", "query", "http1", "tokio"] }
chrono = { version = "=0.4.45", default-features = false, features = ["std", "clock", "serde"] }
fastembed = { version = "=7.5.0", default-features = false, features = ["hf-hub-rustls-tls", "ort-load-dynamic"] }
reqwest = { version = "=0.12.28", default-features = false, features = ["json", "blocking", "rustls-tls"] }
rmcp = { version = "=3.8.0", features = ["server", "macros", "transport-io", "transport-streamable-http-server"] }
rusqlite = { version = "=0.41.1", features = ["bundled"] }
serde = { version = "=1.0.229", features = ["derive"] }
serde_json = "=1.0.154"
tantivy = { version = "=0.27.0", default-features = false, features = ["mmap"] }
tokio = { version = "=1.54.1", features = ["rt-multi-thread", "macros", "sync", "time"] }
tracing = "0.1"
uuid = { version = "=1.29.0", features = ["v7", "serde"] }
