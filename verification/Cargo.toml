[package]
name = "wasmcolonies"
version = "0.1.0"
edition = "2021"
publish = false

[dependencies]
ring = "*"
data-encoding = "*"
uuid = { version = "*", features = ["v4"] }
wascap = "*"
nats = "*"
serde = { version = "*", features = ["derive"] }
serde_json = "*"
