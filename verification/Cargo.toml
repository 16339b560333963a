[package]
name = "mimir_signer"
version = "0.1.0"
edition = "2021"
publish = false

[dependencies]
ring = "=0.17.14"
rust-crypto = "=0.2.36"
serde_json = "=1.0.151"
serde = { version = "=1.0.229", features = ["derive"] }
rand = "=0.10.3"
reqwest = { version = "=0.13.5", default-features = false, features = ["blocking", "json"] }
structopt = "=0.3.26"
toml = "=1.1.6"
secp256k1 = { version = "=0.33.1", features = ["recovery"] }
tiny-keccak = { version = "=2.0.2", features = ["keccak"] }

[dev-dependencies]
rlp = "=0.6.1"
