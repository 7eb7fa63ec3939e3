[package]
name = "disca"
version = "0.1.0"
edition = "2021"
publish = false

[dependencies]
anyhow = "1"
dashmap = "5"
either = "1"
futures = "0.3"
libp2p = { version = "0.52", features = ["kad", "identify", "request-response", "cbor", "macros"] }
sccache = { version = "*", default-features = false }
serde = { version = "1", features = ["derive"] }
tokio = { version = "1", features = ["rt-multi-thread", "macros", "fs", "sync", "io-util"] }
void = "1"
