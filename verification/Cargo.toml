[package]
name = "flatai"
version = "0.1.0"
edition = "2021"
publish = false

[dependencies]
rayon = "*"
chrono = "*"
serde = { version = "*", features = ["derive"] }
serde_json = "*"
walkdir = "*"
clipboard = "*"
