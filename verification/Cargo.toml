[package]
name = "valueswap"
version = "0.1.0"
edition = "2021"
publish = false

[dependencies]
candid = "0.10"
ic-cdk = "0.16"
ic-cdk-macros = "0.16"
ic-stable-structures = "0.6"
ic-xrc-types = "1.2"
num-traits = "0.2"
once_cell = "1"
serde = { version = "1", features = ["derive"] }
futures = "0.3"
