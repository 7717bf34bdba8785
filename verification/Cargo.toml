[package]
name = "hydration"
version = "0.1.0"
edition = "2021"
publish = false

[dependencies]
cosmwasm-std = "1"
cw2 = "1"
serde-json-wasm = "1"
thiserror = "1"
