[package]
name = "formatlab"
version = "0.1.0"
edition = "2021"
publish = false

[dependencies]
anyhow = "1"
calamine = "*"
image = { version = "0.25", default-features = false, features = ["png", "jpeg", "webp", "gif", "bmp", "tiff", "ico"] }
log = "0.4"
pulldown-cmark = "*"
resvg = "*"
serde = { version = "1", features = ["derive"] }
tiny-skia = "*"
usvg = "*"
