[package]
name = "evm_simulation"
version = "0.1.0"
edition = "2021"
publish = false

[dependencies]
ethers-core = "2"
ethers-providers = "2"
ethers-contract = "2"
tokio = { version = "1", features = ["full"] }
csv = "1"
anyhow = "1"
log = "0.4"
dotenv = "0.15"
