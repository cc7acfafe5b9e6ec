[package]
name = "shortcut_release_helper"
version = "0.1.0"
edition = "2021"
publish = false

[dependencies]
regex = "=1.13.1"
git2 = { version = "=0.21.0", default-features = false }
anyhow = "=1.0.104"
serde = { version = "=1.0.229", features = ["derive"] }
toml = "=1.1.8"
clap = { version = "=4.6.7", features = ["derive"] }
tokio = { version = "=1.54.1", features = ["rt-multi-thread", "macros"] }
futures = "=0.3.34"
governor = "=0.10.4"
minijinja = { version = "=3.0.3", features = ["serde"] }
chrono = "=0.4.45"
tracing = "=0.1.44"
tracing-subscriber = "=0.3.23"
ansi_term = "=0.12.1"
