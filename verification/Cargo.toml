[package]
name = "wash"
version = "0.1.0"
edition = "2021"
publish = false

[dependencies]
clap = "*"
conch-parser = "*"
iterm2 = "*"
serde = "*"
serde_json = "*"
zip = { version = "*", default-features = false, features = ["deflate"] }
