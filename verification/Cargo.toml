[package]
name = "genet_livery"
version = "0.1.0"
edition = "2021"
publish = false

[dependencies]
cssparser = "*"
data-url = "*"
image = { version = "*", default-features = false, features = ["png", "jpeg", "gif", "bmp", "webp"] }
taffy = "*"
serde = { version = "*", features = ["derive"] }
