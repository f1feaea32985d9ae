[package]
name = "blobidx"
version = "0.1.0"
edition = "2021"
publish = false

[dependencies]
radixdb = "*"
blake3 = "*"
postcard = { version = "*", features = ["alloc"] }
anyhow = "*"

[dev-dependencies]
unsigned-varint = "*"
