[package]
name = "bevy-networker-multiplayer"
version = "0.1.0"
edition = "2021"
publish = false

[dependencies]
bevy = { version = "0.17", default-features = false, features = ["std", "async_executor", "bevy_log"] }
bincode = { version = "2", features = ["serde"] }
inventory = "0.3"
networker-rs = "*"
proc-macro2 = "1"
quote = "1"
serde = { version = "1", features = ["derive"] }
syn = { version = "2", features = ["full", "extra-traits"] }
