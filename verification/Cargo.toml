[package]
name = "nai_gallery"
version = "0.1.0"
edition = "2021"
publish = false

[dependencies]
flate2 = "1"
image = { version = "0.25", default-features = false, features = ["png", "jpeg", "webp"] }
notify-debouncer-mini = "0.4"
rayon = "1"
regex = "1"
rusqlite = { version = "0.32", features = ["bundled"] }
serde = { version = "1", features = ["derive"] }
serde_json = "1"
trash = "5"
walkdir = "2"
