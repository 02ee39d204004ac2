[package]
name = "packtrans-glossary"
version = "0.1.0"
edition = "2021"
publish = false

[dependencies]
anyhow = "=1.0.104"
serde = { version = "=1.0.229", features = ["derive"] }
serde_json = "=1.0.154"
zip = { version = "=2.6.1", default-features = false, features = ["deflate"] }
lindera = "=6.2.0"
tantivy = "=0.27.0"
clap = { version = "=4.6.7", features = ["derive"] }
ureq = { version = "=2.12.1", features = ["json"] }
indicatif = "=0.18.6"
lru = "=0.19.0"
tokio = { version = "=1.54.1", features = ["rt-multi-thread", "macros", "net", "signal"] }
axum = "=0.8.9"
rmcp = { version = "=3.8.0", features = ["server", "macros", "transport-io", "transport-streamable-http-server"] }
schemars = "=1.2.3"
