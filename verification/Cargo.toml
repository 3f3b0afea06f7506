[package]
name = "cs2_autoexec"
version = "0.1.0"
edition = "2021"
publish = false

[dependencies]
js-sys = "=0.3.106"
wasm-bindgen = "=0.2.129"
wasm-bindgen-futures = "=0.4.79"
web-sys = { version = "=0.3.106", features = ["Blob", "BlobPropertyBag", "Document", "Element", "Event", "EventTarget", "File", "FileList", "HtmlElement", "HtmlInputElement", "Url", "Window"] }
yew = { version = "0.23", features = ["csr"] }
yewdux = "0.13"
