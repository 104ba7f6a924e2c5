[package]
name = "reddit_wallpapers"
version = "0.1.0"
edition = "2021"
publish = false

[dependencies]
json = "=0.12.4"
reqwest = { version = "=0.13.5", default-features = false, features = ["query", "form"] }
tokio = { version = "*", features = ["rt-multi-thread", "macros", "fs", "io-util"] }
futures-util = "*"
image = { version = "=0.25.10", default-features = false, features = ["png", "jpeg"] }
more-wallpapers = "*"
serde = { version = "*", features = ["derive"] }
serde_json = "*"
toml = "*"
log = "*"
env_logger = "*"
anyhow = "*"
thiserror = "*"
