[package]
name = "wfe_executor"
version = "0.1.0"
edition = "2021"
publish = false

[dependencies]
cortex-m = "=0.7.10"
futures-core = { version = "=0.2.1", default-features = false }
