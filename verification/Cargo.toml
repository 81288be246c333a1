[package]
name = "rayworld"
version = "0.1.0"
edition = "2021"
publish = false

[dependencies]
bytemuck = { version = "1", features = ["derive"] }
serde = { version = "1", features = ["derive"] }
toml = "0.8"
