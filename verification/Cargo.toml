[package]
name = "traintable"
version = "0.1.0"
edition = "2021"
publish = false

[dependencies]
zip = { version = "*", default-features = false, features = ["deflate"] }
serde = { version = "*", features = ["derive"] }
serde_json = "*"
chrono = "*"
chrono-tz = "*"
clap = { version = "*", features = ["derive"] }
figment = { version = "*", features = ["toml", "env"] }
poem = "*"
tokio = { version = "*", features = ["rt-multi-thread", "macros", "sync"] }
reqwest = { version = "*", default-features = false }
ctrlc = "*"
thiserror = "*"
anyhow = "*"
bytes = "*"
