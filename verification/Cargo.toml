[package]
name = "raven"
version = "0.1.0"
edition = "2021"
publish = false

[dependencies]
anyhow = "1"
clap = { version = "4", features = ["derive"] }
flate2 = "1"
fuzzy-matcher = "0.3"
git2 = { version = "0.19", default-features = false }
hex = "0.4"
indicatif = "0.17"
nix = { version = "0.29", features = ["mount", "sched", "fs"] }
owo-colors = "4"
reqwest = { version = "0.12", default-features = false, features = ["rustls-tls"] }
semver = "1"
serde = { version = "1", features = ["derive"] }
sha2 = "0.10"
sqlx = { version = "0.8", default-features = false, features = ["runtime-tokio", "sqlite"] }
tar = "0.4"
thiserror = "1"
tokio = { version = "1", features = ["full"] }
toml = "0.8"
walkdir = "2"
