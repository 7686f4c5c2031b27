[package]
name = "trka"
version = "0.1.0"
edition = "2021"
publish = false

[dependencies]
earcutr = "0.5"
geojson = "0.24"
quick-xml = "0.38"
serde = { version = "1", features = ["derive"] }
serde_json = "1"
tokio = { version = "1", features = ["rt", "time", "sync"] }
tracing = "0.1"
tracing-subscriber = "0.3"
ureq = "2"
