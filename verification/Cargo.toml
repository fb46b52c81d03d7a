[package]
name = "bit_music"
version = "0.1.0"
edition = "2021"
publish = false

[dependencies]
serde = { version = "1", features = ["derive"] }
serde_json = "1"
hound = "3"
clap = { version = "4", features = ["derive"] }
crossterm = "0.28"
chrono = "0.4"
cpal = "0.15"
thiserror = "2"
