[package]
name = "asset_retype"
version = "0.1.0"
edition = "2021"
publish = false

[dependencies]
ethers = { version = "=2.0.14", default-features = false }
hex = "=0.4.3"
noah-algebra = "=0.4.0"
noah-bulletproofs = "=4.0.0"
ark-bulletproofs = { version = "=4.0.0", default-features = false, features = ["yoloproofs"] }
noah-crypto = "=0.4.0"
serde = "=1.0.229"
tokio = { version = "=1.53.2", features = ["macros", "rt-multi-thread"] }
