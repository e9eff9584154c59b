[package]
name = "fractal_core"
version = "0.1.0"
edition = "2021"
publish = false

[dependencies]
anyhow = "1"
clap = { version = "4", features = ["derive", "cargo"] }
float-cmp = "0.9"
image = { version = "0.24", default-features = false, features = ["png"] }
num = "0.4"
rayon = "1"
serde = { version = "1", features = ["derive"] }
serde_json = "1"
time = "0.3"
