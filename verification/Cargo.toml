[package]
name = "seam_carver"
version = "0.1.0"
edition = "2021"
publish = false

[dependencies]
image = { version = "0.25", default-features = false, features = ["jpeg", "png"] }
indicatif = "0.17"
rayon = "1"
