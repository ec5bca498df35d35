[package]
name = "nail"
version = "0.1.0"
edition = "2021"
publish = false

[dependencies]
ascon-hash = "*"
uuid = { version = "1", features = ["v4", "v7", "serde"] }
serde = { version = "1", features = ["derive"] }
serde_json = "1"
hex = "0.4"
