[package]
name = "gba_assets"
version = "0.1.0"
edition = "2021"
publish = false

[dependencies]
anyhow = "1"
atty = "0.2"
clap = { version = "4", features = ["derive"] }
image = { version = "0.25", default-features = false, features = ["png", "bmp", "gif", "jpeg"] }
png = "0.17"
thiserror = "1"
tiled = { version = "*", default-features = false }
