[package]
name = "meio"
version = "0.1.0"
edition = "2021"
publish = false

[dependencies]
anyhow = "1"
async-trait = "0.1"
async-tungstenite = { version = "0.23", features = ["tokio-runtime"] }
futures = "0.3"
headers = "0.3"
hyper = { version = "0.14", features = ["server", "http1", "tcp"] }
log = "0.4"
serde = { version = "1", features = ["derive"] }
serde_qs = "0.12"
slab = "0.4"
tokio = { version = "1", features = ["net", "rt", "sync", "time", "macros"] }
tokio-tungstenite = "0.20"
tungstenite = "0.20"
