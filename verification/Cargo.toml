[package]
name = "beam-agent"
version = "0.1.0"
edition = "2021"
publish = false

[dependencies]
anyhow = "1"
audiopus = "0.2"
base64 = "=0.22.1"
bytes = "1"
gstreamer = "0.23"
gstreamer-app = "0.23"
gstreamer-video = "0.23"
libc = "0.2"
libpulse-binding = "2"
libpulse-simple-binding = "2"
nix = { version = "0.30", features = ["user"] }
rustls = { version = "0.23", default-features = false, features = ["ring", "std"] }
serde_json = "=1.0.154"
tokio = { version = "1", features = ["full"] }
tokio-tungstenite = "0.28"
tracing = "0.1"
tracing-subscriber = { version = "0.3", features = ["env-filter"] }
uuid = { version = "=1.29.0", features = ["v4"] }
webrtc = "0.17"
x11rb = { version = "0.13", features = ["xtest", "xfixes"] }
