[package]
name = "contact_dedup"
version = "0.1.0"
edition = "2021"
publish = false

[dependencies]
clap = { version = "4", features = ["derive"] }
colored = "2"
csv = "1"
rayon = "1"
serde = { version = "1", features = ["derive"] }
unicode-segmentation = "1"
