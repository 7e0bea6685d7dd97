[package]
name = "songbook"
version = "0.1.0"
edition = "2021"
publish = false

[dependencies]
human-sort = "*"
sha2 = "0.10"
hex = "0.4"
petgraph = "*"
chrono = "0.4"
serde = { version = "1", features = ["derive"] }
serde_json = "1"
serde_yaml = "*"
log = "0.4"
simple_logger = "*"
