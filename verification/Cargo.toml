[package]
name = "backup_pipeline"
version = "0.1.0"
edition = "2021"
publish = false

[dependencies]
base64 = "0.13"
brotli = "*"
openssl = "*"
cryptostream = "*"
chacha20poly1305 = "0.10"
aes = "0.8"
cbc = { version = "0.1", features = ["alloc", "block-padding"] }
