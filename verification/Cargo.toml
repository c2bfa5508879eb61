[package]
name = "media_dedup"
version = "0.1.0"
edition = "2021"
publish = false

[dependencies]
anyhow = "1"
bytesize = "1"
chrono = "0.4"
clap = { version = "4", features = ["derive"] }
humantime = "2"
regex = "1"
sysinfo = "0.29"
twox-hash = "1.6"
walkdir = "2"
