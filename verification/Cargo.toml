[package]
name = "rl"
version = "0.1.0"
edition = "2021"
publish = false

[dependencies]
chrono = "0.4"
inquire = "0.7"
rusqlite = { version = "*", features = ["bundled", "chrono"] }
