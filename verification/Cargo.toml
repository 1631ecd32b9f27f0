[package]
name = "pyde_node"
version = "0.1.0"
edition = "2021"
publish = false

[dependencies]
hex = "0.4"
ethnum = "1"
libp2p = { version = "0.54", default-features = false }
serde = { version = "1", features = ["derive"] }
serde_json = "1"
tokio = { version = "1", features = ["sync", "signal", "rt", "macros", "time"] }
jsonrpsee = { version = "0.24", features = ["server", "macros"] }
tower = { version = "0.4", default-features = false }
futures-util = { version = "0.3", default-features = false }
ratatui = "0.29"
crossterm = "0.28"
tracing = "0.1"
