[package]
name = "amazon_rose_forest"
version = "0.1.0"
edition = "2021"
publish = false

[dependencies]
sha2 = "=0.10.9"
sha3 = "=0.10.9"
blake3 = "=1.8.7"
digest = "=0.10.7"
uuid = { version = "=1.29.1", features = ["v4", "serde"] }
chrono = { version = "=0.4.45", features = ["serde"] }
serde = { version = "=1.0.229", features = ["derive"] }
serde_json = "=1.0.154"
thiserror = "=1.0.69"
anyhow = "=1.0.104"
tokio = { version = "=1.54.1", features = ["full"] }
tracing = "=0.1.44"
tracing-subscriber = "=0.3.23"
rand = "=0.8.8"
rand_distr = "=0.4.3"
prometheus = "=0.13.4"
once_cell = "=1.21.4"
dashmap = "=5.5.3"
async-trait = "=0.1.92"
futures = "=0.3.34"
bytes = "=1.12.1"
reqwest = { version = "=0.11.27", features = ["json", "multipart"] }
warp = "=0.3.7"
sysinfo = "=0.29.11"
petgraph = "=0.6.5"
bulletproofs = "=4.0.0"
hnsw = "=0.11.0"
space = "=0.17.0"
