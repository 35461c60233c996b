[package]
name = "netidx"
version = "0.1.0"
edition = "2021"
publish = false

[dependencies]
protobuf = "~2.14"
bytes = "1"
byteorder = "1"
rand = "0.7"
tokio = { version = "1", features = ["full"] }
futures = "0.3"
anyhow = "1"
log = "0.4"
parking_lot = "0.11"
fxhash = "0.2"
serde = { version = "1", features = ["derive"] }
rmp-serde = "1"
rmpv = "1"
serde_json = "1"
base64 = "0.13"
async-std = "1"
