[package]
name = "codex_core"
version = "0.1.0"
edition = "2021"
publish = false

[dependencies]
anyhow = "=1.0.104"
once_cell = "=1.21.4"
ort = { version = ">=2.0.0-rc.0, <2.1.0", default-features = false, features = ["load-dynamic", "std"] }
reqwest = { version = "=0.12.28", default-features = false, features = ["json"] }
rusqlite = { version = "=0.31.0", features = ["bundled"] }
serde = { version = "=1.0.229", features = ["derive"] }
serde_json = "=1.0.151"
thiserror = "=1.0.69"
tokenizers = { version = "0.21", default-features = false, features = ["onig"] }
tokio = { version = "=1.53.2", features = ["rt-multi-thread", "time", "sync", "macros"] }
tracing = "=0.1.44"
tracing-subscriber = { version = "=0.3.23", features = ["env-filter"] }
