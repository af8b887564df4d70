[package]
name = "pdfind"
version = "0.1.0"
edition = "2021"
publish = false

[dependencies]
regex = "=1.13.1"
serde = { version = "=1.0.229", features = ["derive"] }
serde_json = "=1.0.154"
ureq = { version = "=2.12.1", features = ["json"] }
ignore = "=0.4.34"
rusqlite = { version = "=0.41.1", features = ["bundled"] }
bzip2 = "=0.6.1"
tar = "=0.4.46"
genpdf = { version = "=0.2.0", features = ["images"] }
pdfium-render = "=0.9.5"
sherpa-onnx = "=2.0.1"
