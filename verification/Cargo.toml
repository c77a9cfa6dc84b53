[package]
name = "zk_wordle"
version = "0.1.0"
edition = "2021"
publish = false

[dependencies]
halo2_proofs = "=0.2.0"
rand_core = { version = "0.6", features = ["getrandom"] }
serde = { version = "1", features = ["derive"] }
serde_json = "1"
