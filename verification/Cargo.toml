[package]
name = "orchestrator_core"
version = "0.1.0"
edition = "2021"
publish = false

[dependencies]
glob = "*"
chrono = "*"
uuid = { version = "*", features = ["v4"] }
serde = { version = "*", features = ["derive"] }
serde_json = "*"
rusqlite = { version = "*", features = ["bundled"] }
notify = "*"
walkdir = "*"
dirs = "*"
reqwest = { version = "*", default-features = false, features = ["json"] }
tokio = { version = "*", features = ["full"] }
