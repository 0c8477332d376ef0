[package]
name = "sioc"
version = "0.1.0"
edition = "2021"
publish = false

[dependencies]
base64 = "0.22"
bytes = "1"
bytestring = "1"
futures-util = { version = "0.3", features = ["sink"] }
heck = "0.5"
http = "1"
reqwest = { version = "0.12", default-features = false }
serde = { version = "1", features = ["derive"] }
serde_json = "1"
tokio = { version = "1", features = ["rt", "sync", "time", "macros"] }
tokio-tungstenite = "0.26"
tokio-util = "0.7"
tracing = "0.1"
url = "2"
