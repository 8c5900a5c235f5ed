[package]
name = "faucet_core"
version = "0.1.0"
edition = "2021"
publish = false

[dependencies]
async-channel = "*"
async-std = { version = "*", features = ["attributes"] }
clap = { version = "*", features = ["derive", "env"] }
dirs = "*"
futures = "*"
rand = "*"
rand_chacha = "*"
serde = { version = "*", features = ["derive"] }
