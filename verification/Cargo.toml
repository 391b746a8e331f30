[package]
name = "alayasiki"
version = "0.1.0"
edition = "2021"
publish = false

[dependencies]
sha2 = "=0.10.9"
crc32fast = "=1.5.3"
chrono = { version = "=0.4.45", default-features = false, features = ["std"] }
text-splitter = "=0.33.0"
rkyv = { version = "=0.7.46", features = ["validation"] }
serde = { version = "=1.0.229", features = ["derive"] }
serde_json = "=1.0.154"
tokio = { version = "=1.54.1", features = ["fs", "io-util", "sync", "rt", "macros"] }
jsonwebtoken = "=9.3.1"
pdf-extract = "=0.7.12"
anyhow = "=1.0.104"
async-trait = "=0.1.92"
thiserror = "=1.0.69"
tracing = "=0.1.44"
tracing-subscriber = { version = "=0.3.23", features = ["env-filter"] }
config = { version = "=0.14.1", default-features = false, features = ["toml", "json"] }
dashmap = "6.1"
