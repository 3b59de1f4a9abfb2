[package]
name = "peerchat"
version = "0.1.0"
edition = "2021"
publish = false

[dependencies]
rand = "=0.10.3"
anyhow = "=1.0.104"
futures-lite = "=2.6.1"
iroh = "=1.3.0"
iroh-gossip = "=0.101.0"
tokio = { version = "=1.53.2", features = ["macros", "rt-multi-thread", "sync", "net", "io-util", "time"] }
