[package]
name = "ptonlineres2prpr"
version = "0.1.0"
edition = "2021"
publish = false

[dependencies]
image = "*"
bytes = "*"
serde = { version = "*", features = ["derive"] }
reqwest = { version = "*", default-features = false, features = ["json"] }
tokio = { version = "*", features = ["rt-multi-thread", "fs", "io-util", "macros"] }

[dev-dependencies]
serde_yaml = "*"
