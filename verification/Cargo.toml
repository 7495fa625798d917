[package]
name = "deskremote"
version = "0.1.0"
edition = "2021"
publish = false

[dependencies]
tokio = { version = "1", features = ["rt-multi-thread", "net", "sync", "io-util", "macros"] }
mdns-sd = "*"
local-ip-address = "*"
rdev = "*"
tracing = "*"
tracing-subscriber = "*"
