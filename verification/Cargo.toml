[package]
name = "blisp"
version = "0.1.0"
edition = "2021"
publish = false

[dependencies]
bitvec = "1"
csv = "1"
memmap2 = "0.9"
rayon = "1"
serde = { version = "1", features = ["derive"] }
serde_json = "1"
serde_yaml = "0.9"
