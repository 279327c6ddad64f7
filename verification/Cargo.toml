[package]
name = "aabb_quad_tree"
version = "0.1.0"
edition = "2021"
publish = false

[dependencies]
bitvec = "=1.1.1"
byteorder = "=1.5.0"
bincode = "=1.3.3"
serde = { version = "1", features = ["derive"] }
serde_json = "1"
uuid = { version = "1", features = ["serde"] }
noisy_float = "0.2"
