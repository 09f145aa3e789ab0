[package]
name = "rustconf_explorer"
version = "0.1.0"
edition = "2021"
publish = false

[dependencies]
gloo = "*"
gloo-net = "*"
js-sys = "*"
serde = { version = "*", features = ["derive"] }
wasm-bindgen-futures = "*"
yew = { version = "*", features = ["csr"] }
yew-router = "*"
