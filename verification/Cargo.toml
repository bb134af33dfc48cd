[package]
name = "voxtype_realtime"
version = "0.1.0"
edition = "2021"
publish = false

[dependencies]
anyhow = "1"
base64 = "=0.22.1"
chrono = "0.4"
dirs = "6"
egui = { version = "0.34.3", default-features = false }
egui-wgpu = { version = "0.34.3", default-features = false }
futures-util = "0.3"
pollster = "0.4"
raw-window-handle = "0.6"
serde = { version = "1", features = ["derive"] }
serde_json = { version = "=1.0.154", features = ["float_roundtrip"] }
smithay-client-toolkit = { version = "0.20", default-features = false, features = ["calloop"] }
tokio = { version = "1", features = ["macros", "rt-multi-thread", "sync", "time"] }
tokio-tungstenite = { version = "=0.24.0", features = ["rustls-tls-webpki-roots"] }
tracing = "0.1"
wayland-backend = { version = "0.3", features = ["client_system", "dlopen"] }
wgpu = { version = "29", default-features = false, features = ["vulkan", "gles", "wgsl"] }
