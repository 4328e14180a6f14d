[package]
name = "freenet_lib"
version = "0.1.0"
edition = "2021"
publish = false

[dependencies]
serde = { version = "1", features = ["derive"] }
serde_json = "1"
reqwest = { version = "0.12", default-features = false, features = ["json"] }
tokio = { version = "1", features = ["time"] }
futures-util = "0.3"
zip = { version = "2", default-features = false, features = ["deflate"] }
tauri = { version = "2", default-features = false, features = ["wry"] }
