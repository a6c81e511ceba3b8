[package]
name = "quanta_l1"
version = "0.1.0"
edition = "2021"
publish = false

[dependencies]
dilithium-rs = "*"
getrandom = "0.2"
hex = "0.4"
serde = { version = "1", features = ["derive"] }
jsonrpsee = { version = "*", features = ["server", "macros"] }
tokio = { version = "1", features = ["macros", "rt-multi-thread", "signal"] }
parking_lot = "0.12"
