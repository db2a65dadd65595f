[package]
name = "omo_switch"
version = "0.1.0"
edition = "2021"
publish = false

[dependencies]
serde = { version = "1", features = ["derive"] }
serde_json = "1"
json5 = "0.4"
dirs = "5"
chrono = "0.4"
ureq = { version = "2", features = ["json"] }
