[package]
name = "coinstribute"
version = "0.1.0"
edition = "2021"
publish = false

[dependencies]
arrayvec = { version = "=0.7.8", features = ["serde"] }
base58-monero = { version = "=1.0.0", default-features = false }
bincode = "=1.3.3"
blake3 = "=1.8.7"
futures-util = "0.3"
hashbrown = "=0.12.3"
hex-simd = "=0.7.0"
infer = "=0.9.0"
monero = "=0.17.3"
once_cell = "1"
parking_lot = "0.12"
rand = "=0.8.8"
rayon = "=1.12.0"
reqwest = { version = "=0.11.27", default-features = false, features = ["json"] }
rust_decimal = { version = "=1.43.0", features = ["serde"] }
serde = { version = "=1.0.210", features = ["derive"] }
serde_derive = "=1.0.210"
simd-json = { version = "=0.6.0", features = ["allow-non-simd"] }
sled = "=0.34.7"
tokio = { version = "1", features = ["full"] }
warp = "=0.3.7"
