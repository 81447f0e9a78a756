[package]
name = "serverness"
version = "0.1.0"
edition = "2021"
publish = false

[dependencies]
rand = "0.9"
uuid = { version = "1", features = ["v4"] }
serde = { version = "1", features = ["derive"] }
serde_json = "1"
chrono = "0.4"
crossterm = "*"
figlet-rs = "*"
reedline = "*"
ureq = { version = "3", default-features = false, features = ["json"] }
