[package]
name = "trangarbot"
version = "0.1.0"
edition = "2021"
publish = false

[dependencies]
regex = "*"
irc = { version = "*", default-features = false }
tokio = { version = "*", features = ["rt-multi-thread", "macros", "time"] }
futures = "*"
reqwest = { version = "*", default-features = false, features = ["json"] }
serde = { version = "*", features = ["derive"] }
serde_json = "*"
url = "*"
parking_lot = "*"
