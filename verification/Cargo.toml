[package]
name = "dither"
version = "0.1.0"
edition = "2021"
publish = false

[dependencies]
image = { version = "0.25", default-features = false, features = ["png", "jpeg"] }
png = "0.18"
palette = "0.7"
clap = { version = "4", features = ["derive"] }
rayon = "1"
serde = { version = "1", features = ["derive"] }
axum = { version = "0.8", default-features = false, features = ["query"] }
