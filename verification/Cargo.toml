[package]
name = "renderer"
version = "0.1.0"
edition = "2021"
publish = false

[dependencies]
indexmap = "*"
palette = "*"
image = "*"
serde = { version = "*", features = ["derive"] }
serde_json = "*"
rayon = "*"
crossbeam = "*"
once_cell = "*"
