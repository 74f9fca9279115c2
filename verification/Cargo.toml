[package]
name = "cpe_analyzer"
version = "0.1.0"
edition = "2021"
publish = false

[dependencies]
serde_json = "*"
rusqlite = { version = "*", features = ["bundled"] }
xml-rs = "*"
zip = { version = "*", default-features = false, features = ["deflate"] }
reqwest = { version = "*", default-features = false }
tokio = { version = "*", features = ["rt-multi-thread", "macros"] }
log = "*"
tracing = "*"
tracing-subscriber = "*"
