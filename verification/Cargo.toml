[package]
name = "wat"
version = "0.1.0"
edition = "2021"
publish = false

[dependencies]
url = "=2.5.8"
image = { version = "=0.25.10", default-features = false, features = ["png", "jpeg", "gif", "bmp"] }
fontdb = "=0.24.0"
fontdue = "=0.9.5"
serde = { version = "1", features = ["derive"] }
toml = "*"
