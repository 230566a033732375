[package]
name = "vraftls"
version = "0.1.0"
edition = "2021"
publish = false

[dependencies]
tokio = { version = "=1.53.2", features = ["full"] }
serde = { version = "1", features = ["derive"] }
serde_json = "1"
openraft = { version = "=0.9.25", features = ["serde", "storage-v2"] }
rocksdb = "*"
reqwest = { version = "0.12", default-features = false, features = ["json"] }
tower-lsp = "0.20"
dashmap = "5"
anyhow = "1"
clap = { version = "4", features = ["derive"] }
thiserror = "1"
tracing = "0.1"
tracing-subscriber = { version = "0.3", features = ["env-filter"] }
