[package]
name = "bond-core"
version = "0.1.0"
edition = "2021"
publish = false

[dependencies]
sha3 = "=0.10.9"
hex = "=0.4.3"
chrono = "=0.4.45"
ed25519-dalek = "=2.2.0"
rand = "=0.8.8"
anyhow = "1"
clap = { version = "4", features = ["derive"] }
tokio = { version = "1", features = ["macros", "rt-multi-thread"] }

[dev-dependencies]
bincode = "1.3"
rayon = "1"
