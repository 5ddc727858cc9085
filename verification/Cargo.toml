[package]
name = "buffrs"
version = "0.1.0"
edition = "2021"
publish = false

[dependencies]
url = "*"
serde = { version = "*", features = ["derive"] }
toml = "*"
clap = { version = "*", features = ["derive"] }
tokio = { version = "*", features = ["macros", "rt-multi-thread", "fs"] }
reqwest = { version = "*", default-features = false }
keyring = "*"
futures = "*"
