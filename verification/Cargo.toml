[package]
name = "multiway"
version = "0.1.0"
edition = "2021"
publish = false

[dependencies]
blake3 = "1"
rand = "0.8"
rand_chacha = "0.3"
rayon = "1"
rustc-hash = "2"
serde = { version = "1", features = ["derive"] }
thiserror = "2"
