[package]
name = "survival_tiles"
version = "0.1.0"
edition = "2021"
publish = false

[dependencies]
clap = "2.33"
failure = "0.1"
libflate = "0.1"
nalgebra = { version = "*", features = ["serde-serialize"] }
ron = "0.5"
serde = { version = "1.0", features = ["derive"] }
serde_cbor = "0.11"
tiled = "0.9"
