[package]
name = "sine_mml"
version = "0.1.0"
edition = "2021"
publish = false

[dependencies]
anyhow = "1"
chrono = "0.4"
clap = { version = "4", features = ["derive"] }
comfy-table = "7"
console = "0.15"
ctrlc = "3"
dirs = "5"
fundsp = "0.20"
hound = "3"
indicatif = "0.17"
rusqlite = { version = "0.31", features = ["bundled"] }
thiserror = "1"
