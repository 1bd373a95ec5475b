[package]
name = "ncmdump"
version = "0.1.0"
edition = "2021"
publish = false

[dependencies]
aes = "=0.8.4"
anyhow = "=1.0.104"
base64 = "=0.22.1"
clap = { version = "=4.6.7", features = ["derive"] }
crossbeam-channel = "=0.5.17"
id3 = "=1.17.2"
indicatif = "=0.17.11"
metaflac = "=0.2.8"
serde_json = "=1.0.154"
thiserror = "=1.0.69"
walkdir = "=2.5.0"
