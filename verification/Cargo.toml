[package]
name = "router_access"
version = "0.1.0"
edition = "2021"
publish = false

[dependencies]
soroban-sdk = { version = "=29.0.1", features = ["alloc", "hazmat-address"] }

[dev-dependencies]
soroban-sdk = { version = "=29.0.1", features = ["alloc", "hazmat-address", "testutils"] }
