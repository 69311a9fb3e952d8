[package]
name = "satellion"
version = "0.1.0"
edition = "2021"
publish = false

[dependencies]
alloy = { version = "=1.8.3", default-features = false, features = ["std"] }
alloy-signer-local = { version = "=1.8.3", default-features = false, features = ["mnemonic"] }
bitcoin = "=0.32.102"
bip39 = "=2.2.2"
miniscript = "=12.3.8"
serde = { version = "=1.0.229", features = ["derive"] }
serde_json = "=1.0.154"
shush-rs = "=0.1.11"
zeroize = "=1.9.1"
