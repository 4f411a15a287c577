[package]
name = "daw-nexus"
version = "0.1.0"
edition = "2021"
publish = false

[dependencies]
access-unit = "=0.1.5"
bytes = "=1.12.1"
frame-header = "=0.2.2"
futures = "0.3"
gen-id = "=0.2.1"
regex = "=1.13.1"
rtrb = "=0.3.6"
soundkit = "=0.13.3"
soundkit-flac = "=0.13.3"
srt-tokio = "=0.4.4"
tcp-changes = "=0.1.0"
tls-helpers = "=0.2.0"
tokio = { version = "1", features = ["full"] }
tokio-rustls = "0.26"
tokio-stream = "0.1"
tracing = "0.1"
xmpegts = "=0.2.5"
