[package]
name = "card_battler"
version = "0.1.0"
edition = "2021"
publish = false

[dependencies]
smallvec = "1"
rand = "0.8"
serde = { version = "1", features = ["derive"] }
serde_json = "1"
