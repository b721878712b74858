[package]
name = "tofnd"
version = "0.1.0"
edition = "2021"
publish = false

[dependencies]
anyhow = "*"
bls12_381 = "*"
clap = "*"
group = "*"
serde = { version = "*", features = ["derive"] }
serde_json = "*"
tokio = { version = "*", features = ["sync", "rt-multi-thread", "macros"] }
