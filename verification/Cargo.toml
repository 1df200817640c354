[package]
name = "liniverse"
version = "0.1.0"
edition = "2021"
publish = false

[dependencies]
rand = { version = "=0.7.3", features = ["wasm-bindgen"] }
uuid = { version = "=0.8.2", features = ["v4", "wasm-bindgen"] }
wasm-bindgen = "=0.2.129"
web-sys = { version = "=0.3.106", features = ["CanvasRenderingContext2d", "Document", "DomRect", "Element", "EventTarget", "HtmlCanvasElement", "HtmlElement", "MouseEvent", "Node", "Performance", "Window", "console"] }
