[package]
name = "awsx"
version = "0.1.0"
edition = "2021"
publish = false

[dependencies]
anyhow = "1"
chacha20poly1305 = "0.10"
clap = { version = "4", features = ["derive"] }
convert_case = "0.6"
duct = "0.13"
rand = "0.8"
rust-argon2 = "2"
serde_json = "1"
toml = "0.8"
yaml-rust = "0.4"
zeroize = "1"
