[package]
name = "netbridge"
version = "0.1.0"
edition = "2021"
publish = false

[dependencies]
anyhow = "=1.0.104"
futures-util = { version = "=0.3.34", features = ["sink"] }
neon = "=1.1.2"
once_cell = "=1.21.4"
serde_json = "=1.0.151"
tokio = { version = "=1.53.2", features = ["rt-multi-thread", "sync"] }
wreq = { version = "=0.15.3", features = ["websocket", "cookies"] }
wreq-util = { version = "=0.1.0", features = ["emulation-serde"] }
