[package]
name = "codex_compaction"
version = "0.1.0"
edition = "2021"
publish = false

[dependencies]
serde = { version = "*", features = ["derive"] }
serde_json = "*"
tokio = { version = "*", features = ["fs", "rt-multi-thread", "macros", "sync"] }
tokio-util = "*"
async-trait = "*"
dirs = "*"
