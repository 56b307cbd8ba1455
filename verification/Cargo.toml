[package]
name = "digital_rights"
version = "0.1.0"
edition = "2021"
publish = false

[dependencies]
byteorder = "1"
ed25519-dalek = "2"
serde = { version = "1", features = ["derive"] }
sha2 = "0.10"
time = "0.1"
