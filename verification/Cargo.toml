[package]
name = "northstar"
version = "0.1.0"
edition = "2021"
publish = false

[dependencies]
agave-reserved-account-keys = "=3.1.14"
bincode = "=1.3.3"
borsh = "=1.8.1"
log = "0.4"
solana-account = "=3.4.0"
solana-accounts-db = "=3.1.14"
solana-clock = "=3.2.1"
solana-fee-structure = "3"
solana-hash = "=3.1.0"
solana-instruction = "=3.5.1"
solana-keypair = "=3.1.2"
solana-lattice-hash = "=3.1.14"
solana-loader-v3-interface = { version = "6", features = ["bincode", "serde"] }
solana-message = "=3.1.0"
solana-packet = "=3.0.0"
solana-pubkey = { version = "=3.0.0", features = ["curve25519"] }
solana-rent = "=3.1.0"
solana-sdk-ids = "=3.1.0"
solana-sha256-hasher = { version = "=3.1.0", features = ["sha2"] }
solana-signature = "=3.6.0"
solana-signer = "=3.0.1"
solana-transaction = { version = "=3.1.0", features = ["bincode", "serde"] }
thiserror = "2"

[dev-dependencies]
tempfile = "=3.27.0"
