[package]
name = "omaclip"
version = "0.1.1"
edition = "2021"
publish = false

[dependencies]
base64 = "0.22"
libc = "0.2"
serde = { version = "1", features = ["derive"] }
serde_json = "1"
sha2 = "0.10"
tokio = { version = "1", features = ["rt", "macros", "net", "process", "io-util", "sync", "time", "signal"] }
wayland-client = "0.31"
wayland-protocols-wlr = { version = "0.3", features = ["client"] }
