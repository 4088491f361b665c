[package]
name = "gg"
version = "0.1.0"
edition = "2021"
publish = false

[dependencies]
byteorder = "1"
recs = "2"
serde = { version = "1", features = ["derive"] }
serde_cbor = "0.11"
nalgebra = { version = "0.18", features = ["serde-serialize"] }
ggez = "0.5"
png = "0.16"
daemonize = "0.4"
