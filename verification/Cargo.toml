[package]
name = "tpscube_core"
version = "0.1.0"
edition = "2021"
publish = false

[dependencies]
aes = "=0.7.5"
anyhow = "=1.0.104"
byteorder = "=1.5.0"
chrono = "0.4"
rand = "=0.8.8"
