[package]
name = "scribe"
version = "0.1.0"
edition = "2021"
publish = false

[dependencies]
cpal = "*"
ctrlc = "3"
hound = "3.5"
libc = "0.2"
reqwest = { version = "0.12", default-features = false, features = ["blocking", "multipart", "json", "rustls-tls"] }
rubato = "0.16"
screencapturekit = "*"
serde = { version = "1", features = ["derive"] }
serde_json = "1"
