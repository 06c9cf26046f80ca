[package]
name = "aurora_core"
version = "0.1.0"
edition = "2021"
publish = false

[dependencies]
regex = "1"
time = "0.3"
argon2 = "0.5"
getrandom = "0.3"
quick-xml = "0.37"
serde = { version = "1", features = ["derive"] }
serde_json = "1"
thiserror = "2"
