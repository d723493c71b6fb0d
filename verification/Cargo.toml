[package]
name = "network"
version = "0.1.0"
edition = "2021"
publish = false

[dependencies]
b64 = "*"
backtrace = "0.3"
clap = { version = "4", features = ["derive"] }
console_error_panic_hook = "0.1"
env_logger = "*"
futures = "0.3"
futures-util = "0.3"
js-sys = "0.3"
log = "0.4"
tokio = { version = "1", features = ["full"] }
warp = "0.3"
wasm-bindgen = "0.2"
wasm-bindgen-console-logger = "*"

[dev-dependencies]
bincode = "1"
