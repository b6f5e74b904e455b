[package]
name = "helixite"
version = "0.1.0"
edition = "2021"
publish = false

[dependencies]
bincode = "1"
heed = "0.20"
serde = { version = "1", features = ["derive"] }
thiserror = "1"
