[package]
name = "gbam_tools"
version = "0.1.0"
edition = "2021"
publish = false

[dependencies]
byteorder = "=1.5.0"
crc32fast = "=1.5.3"
flate2 = "=1.1.10"
lz4 = "=1.28.1"
memmap2 = "=0.9.12"
serde = { version = "=1.0.229", features = ["derive"] }
serde_json = "=1.0.154"
