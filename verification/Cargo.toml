[package]
name = "shard-stream"
version = "0.1.0"
edition = "2021"
publish = false

[dependencies]
blake3 = { version = "=1.8.7", default-features = false, features = ["pure"] }
bytes = "=1.12.1"
clap = { version = "=4.6.7", features = ["derive"] }
h3 = "=0.0.8"
h3-quinn = "=0.0.10"
hashbrown = "=0.17.1"
http = "=1.5.0"
quinn = { version = "=0.11.12", default-features = false, features = ["runtime-tokio", "rustls-ring"] }
reqwest = { version = "=0.12.28", default-features = false, features = ["json", "stream"] }
rustls = { version = "=0.23.46", default-features = false, features = ["ring", "std", "logging", "tls12"] }
rustls-pemfile = "=2.2.0"
serde = { version = "=1.0.229", features = ["derive"] }
serde_json = "=1.0.154"
serde_urlencoded = "=0.7.1"
tokio = { version = "=1.54.1", features = ["rt-multi-thread", "macros", "sync", "time", "net", "signal"] }
tokio-stream = "=0.1.19"
tonic = "=0.14.9"
tracing = "=0.1.44"
xxhash-rust = { version = "=0.8.19", features = ["xxh3"] }
