[package]
name = "voxel_lab"
version = "0.1.0"
edition = "2021"
publish = false

[dependencies]
sha2 = "0.10"
png = "0.17"
serde = { version = "1", features = ["derive"] }
serde_json = "1"
