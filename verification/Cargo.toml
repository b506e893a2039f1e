[package]
name = "imq"
version = "0.1.0"
edition = "2021"
publish = false

[dependencies]
anyhow = "=1.0.104"
clap = { version = "=4.6.7", features = ["derive"] }
csv = "=1.4.0"
image = { version = "=0.25.10", default-features = false, features = ["bmp", "dds", "exr", "ff", "gif", "hdr", "ico", "jpeg", "png", "pnm", "qoi", "tga", "tiff", "webp"] }
js-sys = "=0.3.107"
pollster = "=1.0.1"
ratatui = "=0.30.2"
rusqlite = { version = "=0.41.1", features = ["bundled"] }
serde_json = "=1.0.154"
serde_yaml_ng = "=0.10.0"
toml = "=1.1.8"
tracing-subscriber = "=0.3.23"
wasm-bindgen = "=0.2.130"
wgpu = "=30.0.1"
