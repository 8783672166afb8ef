[package]
name = "collections_bench"
version = "0.1.0"
edition = "2021"
publish = false

[dependencies]
arbitrary = "1"
rand = "0.8"
rand_xorshift = "0.3"
near-sdk = { version = "4", default-features = false, features = ["unstable", "legacy"] }

[dev-dependencies]
borsh = "1"
