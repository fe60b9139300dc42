[package]
name = "servyi_ioprovider"
version = "0.1.0"
edition = "2021"
publish = false

[dependencies]
anyhow = "1"
arbitrary = "1"
async-trait = "0.1"
serde = { version = "1", features = ["derive"] }
