[package]
name = "criner"
version = "0.1.0"
edition = "2021"
publish = false

[dependencies]
tar = "0.4"
libflate = "*"
globset = "0.4"
rusqlite = { version = "*", features = ["bundled"] }
rmp-serde = "*"
serde = { version = "*", features = ["derive"] }
async-channel = "*"
