[package]
name = "halide-cache"
version = "0.3.0"
edition = "2021"
publish = false

[dependencies]
anyhow = "1"
axum = "0.8"
blake3 = "1"
bytesize = "2"
clap = { version = "4", features = ["derive", "env"] }
dirs = "6"
futures-util = "0.3"
gethostname = "1"
hex = "0.4"
named-lock = "0.4"
serde = { version = "1", features = ["derive"] }
tar = "0.4"
thiserror = "2"
tokio = { version = "1", features = ["rt-multi-thread", "macros", "net", "signal", "sync", "time", "fs"] }
tokio-util = { version = "0.7", features = ["io", "io-util"] }
tracing = "0.1"
tracing-subscriber = { version = "0.3", features = ["env-filter"] }
ureq = "3"
walkdir = "2"
zstd = "0.13"
