[package]
name = "hephaestus"
version = "0.1.0"
edition = "2021"
publish = false

[dependencies]
console_error_panic_hook = "=0.1.7"
futures-intrusive = "=0.5.0"
notify-debouncer-full = "=0.7.0"
peniko = "=0.6.1"
pollster = "=1.0.1"
serde = { version = "=1.0.229", features = ["derive"] }
thiserror = "=2.0.21"
tokio = { version = "=1.54.1", features = ["rt", "sync", "time"] }
vello = "=0.10.0"
vello_common = "=0.2.0"
vello_hybrid = { version = "=0.2.0", features = ["webgl"] }
wasm-bindgen = "=0.2.130"
web-sys = { version = "*", features = ["HtmlCanvasElement"] }
wgpu = "=29.0.4"
windows-core = "=0.100.0"
wuff = "=0.2.9"
