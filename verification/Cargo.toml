[package]
name = "map_viewer"
version = "0.1.0"
edition = "2021"
publish = false

[dependencies]
crossbeam-channel = "=0.5.17"
geo = "=0.33.1"
image = "=0.25.10"
mvt-reader = "=2.5.0"
raqote = { version = "=0.8.5", default-features = false }
serde = { version = "=1.0.229", features = ["derive"] }
ureq = "=3.5.0"
