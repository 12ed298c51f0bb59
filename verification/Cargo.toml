[package]
name = "manzar"
version = "0.1.0"
edition = "2021"
publish = false

[dependencies]
uuid = { version = "1", features = ["v4"] }
image = { version = "0.25", default-features = false, features = ["png", "jpeg", "webp", "gif", "bmp"] }
serde = { version = "1", features = ["derive"] }
serde_json = "1"
trash = { version = "5", default-features = false }

[dev-dependencies]
tempfile = "3"
