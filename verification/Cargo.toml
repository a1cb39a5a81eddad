[package]
name = "anvu_swap"
version = "0.1.0"
edition = "2021"
publish = false

[dependencies]
starknet = "*"
axum = "*"
tokio = { version = "*", features = ["rt-multi-thread", "macros"] }
