[package]
name = "intel8080"
version = "0.1.0"
edition = "2021"
publish = false

[dependencies]
pixels = "0.0.4"
rodio = "0.11"
wasm-bindgen = "0.2"
winit = "0.22"
