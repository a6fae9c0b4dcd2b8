[package]
name = "quec_ttlv"
version = "0.1.0"
edition = "2021"
publish = false

[dependencies]
base64 = "*"
sha2 = "*"
bluer = { version = "*", features = ["bluetoothd"] }
tokio = { version = "*", features = ["rt", "macros", "time"] }
futures = "*"
log = "*"
simple_logger = "*"
uuid = "*"
