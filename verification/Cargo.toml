[package]
name = "eth_client"
version = "0.1.0"
edition = "2021"
publish = false

[dependencies]
alloy = { version = "=2.5.0", default-features = false, features = ["std", "consensus", "network", "signer-local", "provider-http", "reqwest", "rpc-types", "dyn-abi"] }
dotenv = "=0.15.0"
eyre = "=0.6.14"
reqwest = { version = "=0.13.5", default-features = false }
tokio = { version = "=1.54.1", features = ["macros", "rt-multi-thread", "sync", "time"] }
