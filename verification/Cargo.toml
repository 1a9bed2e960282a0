[package]
name = "stable_curve"
version = "0.1.0"
edition = "2021"
publish = false

[dependencies]
cosmwasm-std = "=0.16.7"
cw20 = "=0.8.1"
cw-storage-plus = "=0.8.1"
schemars = "=0.8.22"
serde = { version = "=1.0.229", features = ["derive"] }
terra-cosmwasm = "*"
