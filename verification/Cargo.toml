[package]
name = "botcore"
version = "0.1.0"
edition = "2021"
publish = false

[dependencies]
radix_trie = "=0.3.0"
flurry = "=0.5.2"
leaky-bucket-lite = "=0.5.2"
tokio = { version = "=1.53.2", features = ["rt-multi-thread", "macros", "time", "sync", "signal"] }
serde = { version = "=1.0.229", features = ["derive"] }
serde_json = "=1.0.151"
dotenvy = "=0.15.7"
