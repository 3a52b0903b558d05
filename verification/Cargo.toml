[package]
name = "lonetypist"
version = "0.1.0"
edition = "2021"
publish = false

[dependencies]
serde = { version = "1", features = ["derive"] }
toml = "*"
dirs = "*"
bytemuck = { version = "1", features = ["derive"] }
pixels = "*"
objc2 = "*"
objc2-foundation = "*"
