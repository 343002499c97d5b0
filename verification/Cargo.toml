[package]
name = "text_relay"
version = "0.1.0"
edition = "2021"
publish = false

[dependencies]
ctrlc = "3"
futures-util = "0.3"
local-ip-address = "*"
qrcode = { version = "0.14", default-features = false }
tokio = { version = "1", features = ["full"] }
warp = "0.3"
