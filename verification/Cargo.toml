[package]
name = "twopac"
version = "0.1.0"
edition = "2021"
publish = false

[dependencies]
aes = "=0.8.4"
curve25519-dalek = "=4.1.3"
rand = "=0.8.8"
