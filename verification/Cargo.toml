[package]
name = "abyss"
version = "0.1.0"
edition = "2021"
publish = false

[dependencies]
anyhow = "1"
blake2 = "0.10"
blake3 = { version = "1", features = ["rayon"] }
chrono = "0.4"
flate2 = "1"
globset = "0.4"
governor = "0.6"
md-5 = "0.10"
notify = "6"
serde = { version = "1", features = ["derive"] }
serde_json = "1"
sha1 = "0.10"
sha2 = "0.10"
sha3 = "0.10"
unicode-segmentation = "1"
unicode-width = "0.2"
xxhash-rust = { version = "0.8", features = ["xxh3"] }
xz2 = "0.1"
zstd = "0.13"
