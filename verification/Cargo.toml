[package]
name = "bsr"
version = "0.1.0"
edition = "2021"
publish = false

[dependencies]
anyhow = "=1.0.104"
chrono = "=0.4.45"
clap = { version = "=4.6.7", features = ["derive"] }
colored = "=3.1.1"
dirs = "=7.0.0"
git2 = { version = "=0.21.0", default-features = false }
ignore = "=0.4.34"
inquire = "=0.9.4"
regex = "=1.13.1"
self_update = { version = "=1.3.3", default-features = false, features = ["ureq", "rustls", "github", "progress-bar"] }
serde = { version = "=1.0.229", features = ["derive"] }
serde_json = "=1.0.154"
similar = { version = "=2.7.0", features = ["inline"] }
tempfile = "=3.27.0"
