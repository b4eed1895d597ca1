[package]
name = "rlmesh"
version = "0.1.0"
edition = "2021"
publish = false

[dependencies]
uuid = { version = "=1.29.0", features = ["v4", "v7"] }
async-trait = "=0.1.92"
futures = "0.3"
