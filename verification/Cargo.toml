[package]
name = "texture_processor"
version = "0.1.0"
edition = "2021"
publish = false

[dependencies]
image = { version = "*", default-features = false, features = ["png", "tiff"] }
png = "*"
tiff = "*"
clap = { version = "*", features = ["derive"] }
derive_more = { version = "*", features = ["display"] }
thiserror = "*"
