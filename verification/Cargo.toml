[package]
name = "pq_channel"
version = "0.1.0"
edition = "2021"
publish = false

[dependencies]
aes = "0.7"
aes-gcm = "0.9"
bincode = "1.3"
block-modes = "0.8"
block-padding = "0.2"
generic-array = "0.14"
hkdf = "0.12"
oqs = "*"
rand = "0.8"
serde = { version = "1", features = ["derive"] }
sha3 = "0.10"
thiserror = "1"
