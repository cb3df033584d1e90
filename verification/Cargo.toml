[package]
name = "caliberate"
version = "0.1.0"
edition = "2021"
publish = false

[dependencies]
time = { version = "*", features = ["parsing", "formatting"] }
uuid = "*"
rusqlite = { version = "*", features = ["bundled"] }
