[package]
name = "netflow_indexer"
version = "0.1.0"
edition = "2021"
publish = false

[dependencies]
anyhow = "1"
dotenv = "0.15"
ethers = { version = "2", default-features = false, features = ["abigen"] }
rusqlite = { version = "*", features = ["bundled"] }
structopt = "0.3"
tokio = { version = "1", features = ["macros", "rt-multi-thread", "time"] }
