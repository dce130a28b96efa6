[package]
name = "neorg"
version = "0.1.0"
edition = "2021"
publish = false

[dependencies]
anyhow = "1"
dashmap = "6"
ecow = "0.2"
reqwest = { version = "0.12", default-features = false, features = ["json"] }
ropey = { version = "1", default-features = false }
serde = { version = "1", features = ["derive"] }
serde_json = "1"
thiserror = "1"
tokio = { version = "1", features = ["io-std", "macros", "rt-multi-thread"] }
tower-lsp = "0.20"
tracing-subscriber = "0.3"
unicode-segmentation = "1"
