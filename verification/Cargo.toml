[package]
name = "whisper"
version = "0.1.0"
edition = "2021"
publish = false

[dependencies]
object = "*"
fixed = "*"
libm = "*"
libc = "*"
anyhow = "*"
serde = { version = "*", features = ["derive"] }
serde_json = "*"
probe-rs = "*"
