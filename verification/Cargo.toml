[package]
name = "benchmarks"
version = "0.1.0"
edition = "2021"
publish = false

[dependencies]
roaring = "=0.11.5"
byte-unit = "=5.2.6"
rand = "=0.10.3"
arroy = "=0.8.0"
heed = "=0.22.1"
rayon = "*"
tempfile = "*"
clap = { version = "*", features = ["derive"] }
enum-iterator = "*"
ordered-float = "*"
tracing = "*"
tracing-subscriber = { version = "*", features = ["env-filter"] }
tokio = { version = "*", features = ["rt-multi-thread", "time"] }
qdrant-client = "=1.19.0"
serde_json = "*"
walkdir = "*"
