[package]
name = "sudokuroyale"
version = "0.1.0"
edition = "2021"
publish = false

[dependencies]
itertools = "0.13"
rand = "0.8"
uuid = { version = "1", features = ["v4"] }
chrono = "0.4"
regex = "1"
ctrlc = "3"
serde = { version = "1", features = ["derive"] }
serde_json = "1"
tokio = { version = "1", features = ["sync", "macros", "rt-multi-thread"] }
rocket = { version = "0.5", features = ["json"] }
rocket_ws = "0.1"
dotenvy = "0.15"
