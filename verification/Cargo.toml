[package]
name = "sshr"
version = "0.1.0"
edition = "2021"
publish = false

[dependencies]
anyhow = "1"
base64 = "0.22"
clap = { version = "4", features = ["derive"] }
glob = "0.3"
hostname = "0.4"
libc = "0.2"
owo-colors = "4"
serde = { version = "1", features = ["derive"] }
toml = "0.8"
