[package]
name = "nimble-rs"
version = "0.1.0"
edition = "2021"
publish = false

[dependencies]
bt-hci = "*"
heapless = "*"
enumset = "*"
embassy-time = { version = "*", features = ["std"] }
anyhow = "*"
log = "*"
cc = "*"
bindgen = "*"
