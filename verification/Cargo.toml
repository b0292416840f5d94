[package]
name = "jetexe"
version = "0.1.0"
edition = "2021"
publish = false

[dependencies]
dotenvy = "0.15"
serde = { version = "1", features = ["derive"] }
serde_json = "1"
