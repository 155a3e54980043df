[package]
name = "eenn"
version = "0.1.0"
edition = "2021"
publish = false

[dependencies]
anyhow = "1"
base64 = "0.21"
bincode = "1.3"
bytemuck = "1"
criterion = { version = "0.5", default-features = false }
ed25519-dalek = "1"
futures-executor = "0.3"
futures-intrusive = "0.5"
hex = "0.4"
ndarray = "0.15"
once_cell = "1"
pollster = "0.3"
rand = "0.8"
rkyv = "0.8"
serde = { version = "1", features = ["derive"] }
serde_json = "1"
sha2 = "0.10"
tokio = { version = "1", features = ["sync", "rt", "rt-multi-thread", "macros", "time"] }
wgpu = { version = "0.16", features = ["spirv"] }
wide = "0.7"
