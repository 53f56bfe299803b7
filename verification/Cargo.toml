[package]
name = "norgolith"
version = "0.1.0"
edition = "2021"
publish = false

[dependencies]
regex = "=1.13.1"
semver = "=1.0.28"
serde = { version = "=1.0.229", features = ["derive"] }
serde_json = "=1.0.154"
toml = "=1.1.8"
blake3 = "=1.8.7"
tera = "=2.4.0"
clap = { version = "=4.6.7", features = ["derive"] }
chrono = "=0.4.45"
ureq = "=3.5.1"
flate2 = "=1.1.10"
tar = "=0.4.46"
tempfile = "=3.27.0"
git2 = { version = "=0.21.0", default-features = false }
