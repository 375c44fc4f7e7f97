[package]
name = "bevy_persist"
version = "0.1.0"
edition = "2021"
publish = false

[dependencies]
bincode = "1"
libloading = "*"
notify = "*"
serde = { version = "1", features = ["derive"] }
