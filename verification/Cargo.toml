[package]
name = "cambiare"
version = "0.1.0"
edition = "2021"
publish = false

[dependencies]
axum = "*"
crossbeam-channel = "*"
derive_more = { version = "*", features = ["full"] }
rust_decimal = "*"
serde = { version = "*", features = ["derive"] }
serde_with = "*"
tokio = { version = "*", features = ["macros", "net", "rt-multi-thread"] }
