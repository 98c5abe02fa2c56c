[package]
name = "yamake"
version = "0.1.0"
edition = "2021"
publish = false

[dependencies]
petgraph = "*"
sha2 = "0.10"
hex = "0.4"
regex = "1"
serde = { version = "1", features = ["derive"] }
serde_yaml = "0.9"
rayon = "1"
