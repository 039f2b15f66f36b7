[package]
name = "epoch_client"
version = "0.1.0"
edition = "2021"
publish = false

[dependencies]
anchor-lang = { version = "0.32", default-features = false }
anyhow = "1"
borsh = "0.10"
log = "0.4"
reqwest = { version = "0.12", default-features = false }
solana-account-decoder-client-types = "2.3"
solana-commitment-config = "2.2"
solana-keypair = "2.2"
solana-pubkey = "2.2"
solana-rpc-client = { version = "2.3", default-features = false }
solana-rpc-client-api = "2.3"
