[package]
name = "pixel_shift"
version = "0.1.0"
edition = "2021"
publish = false

[dependencies]
anyhow = "1"
base64 = "0.22"
bytemuck = { version = "1", features = ["derive"] }
image = { version = "0.25", default-features = false, features = ["png", "tiff"] }
kamadak-exif = "0.6"
log = "0.4"
rawler = "0.7"
rayon = "1"
serde = { version = "1", features = ["derive"] }
serde_json = "1"
wgpu = "29"
