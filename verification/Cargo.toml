[package]
name = "meshconf"
version = "0.1.0"
edition = "2021"
publish = false

[dependencies]
anyhow = "=1.0.104"
base64 = "=0.22.1"
bytes = "=1.12.1"
chrono = { version = "=0.4.45", default-features = false, features = ["clock"] }
clap = { version = "=4.6.7", default-features = false, features = ["derive", "help", "std", "usage", "error-context"] }
dirs = "=6.0.0"
flate2 = "=1.1.10"
iroh = { version = "=1.4.1", default-features = false, features = ["tls-ring"] }
itoa = "=1.0.18"
libc = "=0.2.191"
noto-sans-mono-bitmap = { version = "=0.3.2", features = ["bold", "size_24"] }
postcard = { version = "=1.1.3", default-features = false, features = ["use-std"] }
serde = { version = "=1.0.229", features = ["derive"] }
serde_json = "=1.0.154"
tokio = { version = "=1.54.1", features = ["io-util", "macros", "rt-multi-thread", "signal", "sync", "time"] }
tokio-util = "=0.7.20"
tracing = "=0.1.44"
tracing-subscriber = { version = "=0.3.23", default-features = false, features = ["env-filter", "fmt", "std"] }
