[package]
name = "segy_core"
version = "0.1.0"
edition = "2021"
publish = false

[dependencies]
byteorder = "1"
chrono = "0.4"
thiserror = "1"
anyhow = "1"
clap = { version = "4", features = ["derive"] }
walkdir = "2"
