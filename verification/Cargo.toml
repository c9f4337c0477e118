[package]
name = "voca"
version = "0.1.0"
edition = "2021"
publish = false

[dependencies]
base64 = "0.22"
egui = { version = "0.27", default-features = false, features = ["default_fonts"] }
hound = "3.5"
image = { version = "0.24", default-features = false, features = ["png"] }
lazy_static = "1"
reqwest = { version = "0.11", default-features = false, features = ["json", "multipart", "rustls-tls"] }
serde_json = "1"
tokio = { version = "1", features = ["rt-multi-thread", "sync"] }
