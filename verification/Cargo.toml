[package]
name = "codec_core"
version = "0.1.0"
edition = "2021"
publish = false

[dependencies]
aes = "=0.9.3"
base64 = "=0.23.1"
cipher = { version = "=0.5.2", features = ["alloc", "block-padding"] }
getrandom = "=0.2.17"
hex = "=0.4.3"
js-sys = "=0.3.106"
md-5 = "=0.11.0"
serde = { version = "=1.0.229", features = ["derive"] }
sm2 = "=0.14.0"
sm3 = "=0.5.0"
sm4 = "=0.6.0"
smcrypto = "=0.3.1"
wasm-bindgen = "=0.2.129"
