[package]
name = "ggbin"
version = "0.1.0"
edition = "2021"
publish = false

[dependencies]
png = "*"
bmp-rust = "*"
natord = "*"
serde = { version = "*", features = ["derive"] }
serde_json = "*"
