[package]
name = "meff"
version = "0.1.0"
edition = "2021"
publish = false

[dependencies]
rand = "*"
serde = { version = "*", features = ["derive"] }
serde_json = "*"
colored = "*"
prettytable-rs = "*"
get_if_addrs = "*"
local_ipaddress = "*"
