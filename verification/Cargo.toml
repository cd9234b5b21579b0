[package]
name = "ocr_server"
version = "0.1.0"
edition = "2021"
publish = false

[dependencies]
ab_glyph = "0.2"
anyhow = "1"
base64 = "0.22"
clap = { version = "4", features = ["derive"] }
image = "0.25"
imageproc = "0.25"
reqwest = { version = "0.12", default-features = false, features = ["blocking"] }
rocket = { version = "0.5", features = ["json"] }
serde = { version = "1", features = ["derive"] }
serde_json = "1"
thiserror = "1"
tokio-stream = "0.1"
uuid = { version = "1", features = ["v4"] }
