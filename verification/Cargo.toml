[package]
name = "aws-nitro-enclaves-nsm-api"
version = "0.4.0"
edition = "2021"
publish = false

[dependencies]
libc = "0.2"
log = "0.4"
minicbor = { version = "*", features = ["std", "derive"] }
nix = "0.26"
serde_bytes = "0.11"
serde_cbor = "0.11"
signal-hook = "0.3"
threadpool = "1.8"
