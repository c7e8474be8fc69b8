[package]
name = "ghostty_web"
version = "0.1.0"
edition = "2021"
publish = false

[dependencies]
mime_guess = "=2.0.5"
serde = { version = "=1.0.229", features = ["derive"] }
serde_json = "=1.0.154"
tokio = { version = "=1.54.1", features = ["rt-multi-thread", "macros", "sync", "time", "process"] }
actix-web = { version = "=4.18.1", default-features = false, features = ["macros"] }
actix-ws = "=0.3.1"
futures-util = "=0.3.34"
portable-pty = "=0.8.1"
rust-embed = { version = "=8.13.0", features = ["interpolate-folder-path"] }
env_logger = "=0.11.11"
log = "=0.4.35"
once_cell = "=1.21.4"
yew = { version = "=0.21.0", features = ["csr"] }
wasm-bindgen = "=0.2.130"
wasm-bindgen-futures = "=0.4.80"
js-sys = "=0.3.107"
web-sys = { version = "=0.3.107", features = ["Window", "Document", "Element", "HtmlElement", "HtmlInputElement", "MouseEvent", "WheelEvent", "KeyboardEvent", "ClipboardEvent", "DataTransfer", "AudioContext", "BaseAudioContext", "OscillatorNode", "GainNode", "AudioParam", "AudioNode", "AudioDestinationNode", "AudioScheduledSourceNode", "Location", "WebSocket", "MessageEvent", "CloseEvent", "BinaryType", "ResizeObserver", "DomRect", "DomTokenList", "Performance", "console", "EventTarget", "InputEvent", "Event"] }
gloo-events = "=0.2.0"
gloo-net = { version = "=0.5.0", features = ["http", "json"] }
gloo-storage = "=0.3.0"
gloo-timers = "=0.3.0"
uuid = { version = "=1.29.0", features = ["v4", "js"] }
console_log = "=1.1.0"
console_error_panic_hook = "=0.1.7"
