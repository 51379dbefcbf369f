[package]
name = "llmoxide"
version = "0.1.0"
edition = "2021"
publish = false

[dependencies]
serde_json = "=1.0.154"
sha2 = "=0.11.1"
half = "=2.7.1"
pulldown-cmark = { version = "=0.13.6", default-features = false }
bytemuck = "=1.25.2"
anyhow = "=1.0.104"
ureq = "=3.5.1"
memmap2 = "=0.9.12"
rayon = "=1.12.0"
serde = { version = "=1.0.229", features = ["derive"] }
axum = "=0.8.9"
tokio = { version = "=1.54.1", features = ["full"] }
futures = "=0.3.34"
image = { version = "=0.25.10", default-features = false, features = ["png", "jpeg"] }
wgpu = "27"
pollster = "0.4"
