[package]
name = "rag_core"
version = "0.1.0"
edition = "2021"
publish = false

[dependencies]
uuid = { version = "=1.29.0", features = ["v4"] }
reqwest = { version = "=0.12.28", default-features = false, features = ["json"] }
tokio = { version = "=1.54.1", features = ["macros", "rt-multi-thread"] }
serde = { version = "=1.0.229", features = ["derive"] }
serde_json = "=1.0.154"
pdf-extract = "=0.12.1"
pgvector = { version = "=0.4.2", features = ["postgres"] }
tokio-postgres = { version = "=0.7.18", features = ["with-uuid-1"] }
