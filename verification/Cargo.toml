[package]
name = "session_deltas"
version = "0.1.0"
edition = "2021"
publish = false

[dependencies]
anyhow = "=1.0.104"
git2 = { version = "=0.21.0", default-features = false }

[dev-dependencies]
tempfile = "=3.27.0"
