[package]
name = "mdpdf-desktop"
version = "0.1.0"
edition = "2021"
publish = false

[dependencies]
base64 = "=0.22.1"
chrono = "=0.4.45"
comrak = { version = "=0.53.0", default-features = false }
html-escape = "=0.2.15"
memchr = "=2.8.3"
regex = "=1.13.1"
serde = { version = "=1.0.229", features = ["derive"] }
serde_json = "=1.0.154"
serde_yaml = "=0.9.34"
similar = "=2.7.0"
tokio = { version = "=1.54.1", features = ["fs", "sync", "process", "time", "macros", "rt-multi-thread"] }
url = "=2.5.8"
uuid = { version = "=1.29.0", features = ["v4"] }
walkdir = "=2.5.0"
wasm-bindgen = "=0.2.130"
