[package]
name = "porthole"
version = "0.1.0"
edition = "2021"
publish = false

[dependencies]
axum = { version = "=0.8.9", default-features = false, features = ["http1", "json", "query", "tokio", "multipart"] }
dirs = "=6.0.0"
iced = { version = "=0.14.0", default-features = false, features = ["tiny-skia", "x11", "qr_code", "tokio"] }
if-addrs = "=0.13.4"
mime_guess = "=2.0.5"
rfd = { version = "=0.15.4", default-features = false, features = ["xdg-portal", "tokio"] }
serde = { version = "=1.0.229", features = ["derive"] }
serde_json = "=1.0.154"
tokio = { version = "=1.54.1", features = ["sync", "net", "fs"] }
tokio-util = { version = "=0.7.20", features = ["io"] }
wayland-sys = { version = "=0.31.11", features = ["dlopen"] }
