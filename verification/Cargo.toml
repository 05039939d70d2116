[package]
name = "agent-collab"
version = "0.1.0"
edition = "2021"
publish = false

[dependencies]
directories = "=6.0.0"
genai = "=0.7.2"
rusqlite = { version = "=0.41.1", features = ["bundled"] }
rustyline = "=19.0.0"
serde = { version = "=1.0.229", features = ["derive"] }
serde_json = { version = "=1.0.154", features = ["preserve_order"] }
tokio = { version = "=1.54.1", features = ["macros", "process", "rt-multi-thread", "sync", "time"] }
toml = "=1.1.8"
uuid = { version = "=1.29.0", features = ["v4"] }
