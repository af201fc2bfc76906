[package]
name = "oas_sync"
version = "0.1.0"
edition = "2021"
publish = false

[dependencies]
chrono = "0.4"
hex = "0.4"
once_cell = "1"
rayon = "1"
reqwest = { version = "0.12", default-features = false, features = ["blocking"] }
serde_json = "1"
serde_yaml = "0.9"
sha2 = "0.10"
