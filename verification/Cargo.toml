[package]
name = "snapshot_set"
version = "0.1.0"
edition = "2021"
publish = false

[dependencies]
heapless = "0.7"
postcard = { version = "1", features = ["alloc"] }
serde = "1"
