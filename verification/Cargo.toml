[package]
name = "kingdom_map"
version = "0.1.0"
edition = "2021"
publish = false

[dependencies]
serde_json = "*"
serde = { version = "*", features = ["derive"] }
serde_yaml = "*"
reqwest = { version = "*", default-features = false, features = ["blocking"] }
plotters = { version = "*", default-features = false, features = ["svg_backend", "line_series"] }
