[package]
name = "gnosis"
version = "0.1.0"
edition = "2021"
publish = false

[dependencies]
anyhow = "=1.0.104"
blake3 = "=1.8.7"
clap = { version = "=4.6.7", features = ["derive"] }
dirs = "=7.0.0"
ignore = "=0.4.34"
image = { version = "=0.25.10", default-features = false, features = ["png"] }
indicatif = "=0.18.6"
pulldown-cmark = "=0.13.6"
rusqlite = { version = "=0.41.1", features = ["bundled"] }
serde = { version = "=1.0.229", features = ["derive"] }
serde_json = "=1.0.154"
serde_norway = "=0.9.42"
toml = "=1.1.8"
usearch = { version = "=2.26.6", default-features = false }
