[package]
name = "fractals"
version = "0.1.0"
edition = "2021"
publish = false

[dependencies]
bincode = "1"
clap = "4"
imagefmt = "*"
palette = "*"
rayon = "1"
serde = { version = "1", features = ["derive"] }
serde_json = "1"
