[package]
name = "cofe_graph"
version = "0.1.0"
edition = "2021"
publish = false

[dependencies]
tree-sitter = "0.25"
tree-sitter-c = "0.24"
blake3 = "1"
streaming-iterator = "0.1"
serde = { version = "1", features = ["derive"] }
serde_json = "1"
schemars = "1"
rmcp = { version = "*", features = ["server", "macros", "transport-io"] }
tokio = { version = "1", features = ["full"] }
anyhow = "1"
toon-format = "*"
tracing = "0.1"
tracing-appender = "0.2"
tracing-subscriber = "0.3"
walkdir = "2"
rayon = "1"
bincode = "1"
filetime = "0.2"
axum = "0.8"
