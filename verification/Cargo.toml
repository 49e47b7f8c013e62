[package]
name = "nano_snapshots"
version = "0.1.0"
edition = "2021"
publish = false

[dependencies]
bitvec = "1"
serde = { version = "1", features = ["derive"] }
tracing = "0.1"
