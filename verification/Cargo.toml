[package]
name = "wiserone"
version = "0.1.0"
edition = "2021"
publish = false

[dependencies]
serde_json = "*"
csv = "*"
vrd = "*"
dtt = "*"
clap = { version = "*", features = ["derive"] }
