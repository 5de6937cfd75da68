[package]
name = "logos_blockchain"
version = "0.1.0"
edition = "2021"
publish = false

[dependencies]
async-trait = "=0.1.92"
blake2 = "=0.10.6"
const-hex = "=1.19.3"
ed25519-dalek = { version = "=2.2.0", features = ["rand_core"] }
futures = "=0.3.34"
libp2p = { version = "=0.55.0", default-features = false }
rand = "=0.8.8"
rpds = "=1.2.1"
serde = { version = "=1.0.229", features = ["derive"] }
thiserror = "=2.0.21"
tokio = { version = "=1.54.1", features = ["macros", "rt-multi-thread", "sync", "time"] }
tracing = "=0.1.44"
