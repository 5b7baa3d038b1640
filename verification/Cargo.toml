[package]
name = "fssota"
version = "0.1.0"
edition = "2021"
publish = false

[dependencies]
rand = "0.8"
colored = "2"
crossterm = "0.27"
local-ip-address = "*"
whoami = "1"
serde = { version = "1", features = ["derive"] }
serde_derive = "1"
serde_json = "1"
