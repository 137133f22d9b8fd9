[package]
name = "ark_core"
version = "0.1.0"
edition = "2021"
publish = false

[dependencies]
blsttc = "=8.0.2"
bech32 = "=0.12.0"
bip39 = { version = "=3.0.0", features = ["rand"] }
sn_bls_ckd = "=0.2.1"
sn_curv = { version = "=0.10.1", default-features = false, features = ["num-bigint"] }
age-core = "=0.11.0"
rand = "=0.10.3"
sha3 = "=0.9.1"
