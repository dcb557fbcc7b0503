[package]
name = "vnts"
version = "0.1.0"
edition = "2021"
publish = false

[dependencies]
aes-gcm = "*"
rsa = "*"
sha2 = "*"
rand = "*"
uuid = { version = "*", features = ["v4"] }
tokio = { version = "*", features = ["full"] }
clap = { version = "*", features = ["derive"] }
log = "*"
log4rs = "*"
socket2 = "*"
anyhow = "*"
parking_lot = "*"
