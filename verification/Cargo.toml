[package]
name = "scrum_poker"
version = "0.1.0"
edition = "2021"
publish = false

[dependencies]
uuid = { version = "=1.29.0", features = ["v4", "js"] }
serde = { version = "=1.0.229", features = ["derive"] }
serde_json = "=1.0.154"
axum = { version = "=0.8.9", features = ["ws"] }
tokio = { version = "=1.54.1", features = ["full"] }
futures-util = "=0.3.34"
futures = "=0.3.34"
dotenv = "=0.15.0"
tracing-subscriber = "=0.3.23"
sycamore = "=0.9.4"
gloo-net = "=0.7.0"
gloo-timers = { version = "=0.4.0", features = ["futures"] }
web-sys = { version = "=0.3.107", features = ["Window", "Storage", "Navigator", "Clipboard", "SubmitEvent", "Event"] }
wasm-bindgen = "=0.2.130"
wasm-bindgen-futures = "=0.4.80"
console_error_panic_hook = "=0.1.7"
