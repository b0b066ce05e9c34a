[package]
name = "blue_book"
version = "0.1.0"
edition = "2021"
publish = false

[dependencies]
anyhow = "=1.0.104"
clap = { version = "=4.6.7", features = ["derive"] }
heck = "=0.5.0"
home = "=0.5.12"
musicbrainz_rs = { version = "=0.14.0", features = ["async", "rustls"] }
regex = "=1.13.1"
rt-format = "=0.3.1"
serde = { version = "=1.0.229", features = ["derive"] }
serde_plain = "=1.0.2"
tempfile = "=3.27.0"
tokio = { version = "=1.54.1", features = ["rt-multi-thread"] }
toml = "=1.1.8"
