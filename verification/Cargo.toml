[package]
name = "yesterdays"
version = "0.1.0"
edition = "2021"
publish = false

[dependencies]
serde = { version = "1", features = ["derive"] }
serde_json = "1"
url = "2"
urlencoding = "2"
base64 = "0.22"
sha2 = "0.10"
rand = "0.9"
image = { version = "0.25", default-features = false, features = ["jpeg", "png", "tiff", "webp", "gif", "bmp", "rayon"] }
image_hasher = "3"
reqwest = { version = "0.12", default-features = false, features = ["json", "stream", "rustls-tls"] }
tokio = { version = "1", features = ["fs", "rt", "macros"] }
tokio-util = { version = "0.7", features = ["io"] }
futures = "0.3"
rayon = "1"
