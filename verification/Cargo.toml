[package]
name = "multi_index_map"
version = "0.1.0"
edition = "2021"
publish = false

[dependencies]
slab = "0.4"
rustc-hash = "2"
syn = { version = "1", features = ["full"] }
proc-macro2 = "1"
