[package]
name = "agent-graph-mcp"
version = "0.2.6"
edition = "2021"
publish = false

[dependencies]
sha2 = "=0.10.9"
serde = { version = "=1.0.229", features = ["derive"] }
serde_json = "=1.0.154"
chrono = "=0.4.45"
toml = "=0.8.23"
libc = "=0.2.191"
rusqlite = { version = "=0.32.1", features = ["bundled"] }
tokio = { version = "=1.54.1", features = ["io-util", "net", "rt", "sync", "time", "macros"] }
blake3 = "=1.8.7"
async-trait = "=0.1.92"
ri-agent-graph = "=0.2.4"
llm-pipeline = "=0.2.1"
llm-tool-runtime = "=0.1.1"
provekv = "=0.1.0-beta.1"
