[package]
name = "cega"
version = "0.1.0"
edition = "2021"
publish = false

[dependencies]
base64 = "=0.21.7"
bitvec = "=1.1.1"
clap = { version = "=4.6.7", features = ["derive"] }
factor = "=0.4.0"
gloo = "0.10"
image = { version = "=0.24.9", default-features = false, features = ["png"] }
sdl2 = { version = "0.35", features = ["gfx"] }
wasm-bindgen = "0.2"
web-sys = { version = "0.3", features = ["DataTransfer", "DragEvent", "File", "FileList", "HtmlInputElement"] }
yew = { version = "0.21", features = ["csr"] }
