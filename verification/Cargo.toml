[package]
name = "palette_dither"
version = "0.1.0"
edition = "2021"
publish = false

[dependencies]
image = { version = "0.24", default-features = false, features = ["jpeg", "png"] }
serde = { version = "1", features = ["derive"] }
toml = "0.8"
clipboard = "0.5"
