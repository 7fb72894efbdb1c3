[package]
name = "pactup"
version = "0.1.0"
edition = "2021"
publish = false

[dependencies]
node-semver = "*"
url = "*"
clap = { version = "*", features = ["derive"] }
serde = { version = "*", features = ["derive"] }
serde_json = "*"
flate2 = "*"
xz2 = "*"
tar = "*"
tempfile = "*"
walkdir = "*"
