[package]
name = "consensus_core"
version = "0.1.0"
edition = "2021"
publish = false

[dependencies]
anyhow = "=1.0.104"
async-channel = "=2.5.0"
async-trait = "=0.1.92"
bls12_381-bls = "=0.3.1"
bytecheck = "=0.6.12"
derive-hex = "=0.1.2"
dusk-bls12_381 = { version = "=0.13.0", features = ["rkyv-impl"] }
dusk-bytes = "=0.1.7"
dusk-plonk = "=0.20.3"
hex = "=0.4.3"
http_req = { version = "=0.14.6", default-features = false, features = ["rust-tls"] }
kadcast = "=0.8.0"
metrics = "=0.24.6"
once_cell = "=1.21.4"
phoenix-core = { version = "=0.32.0", features = ["rkyv-impl"] }
rand = "=0.8.8"
rkyv = { version = "=0.7.46", features = ["validation"] }
sha3 = "=0.10.9"
tokio = { version = "=1.54.1", features = ["rt", "sync", "time", "macros"] }
tracing = "=0.1.44"
zip = { version = "=9.0.5", default-features = false, features = ["deflate"] }
