[package]
name = "neo_calc"
version = "0.1.0"
edition = "2021"
publish = false

[dependencies]
leptos = { version = "0.4", features = ["csr"] }
wasm-bindgen = "0.2"
web-sys = { version = "0.3", features = ["Window", "Document", "Element", "HtmlCanvasElement", "CanvasRenderingContext2d"] }
console_error_panic_hook = "0.1"
