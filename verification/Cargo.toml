[package]
name = "ryke"
version = "0.1.0"
edition = "2021"
publish = false

[dependencies]
aes = "0.8"
aes-gcm = "0.10"
chacha20poly1305 = "0.10"
des = "0.8"
md-5 = "0.10"
md4 = "0.10"
num-bigint = "0.4"
p256 = { version = "0.13", default-features = false, features = ["arithmetic"] }
p384 = { version = "0.13", default-features = false, features = ["arithmetic"] }
p521 = { version = "0.13", default-features = false, features = ["arithmetic"] }
sha1 = "0.10"
sha2 = "0.10"
thiserror = "2"
x25519-dalek = "2"
zeroize = { version = "1", features = ["derive"] }
