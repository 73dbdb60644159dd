[package]
name = "batchcensor"
version = "0.1.0"
edition = "2021"
publish = false

[dependencies]
hound = "3"
clap = "2"
failure = "0.1"
ignore = "0.4"
indicatif = "0.17"
linked-hash-map = { version = "0.5", features = ["serde_impl"] }
rayon = "1"
relative-path = { version = "1", features = ["serde"] }
serde = { version = "1", features = ["derive"] }
serde_yaml = "0.8"
