[package]
name = "lazy_fork"
version = "0.1.0"
edition = "2021"
publish = false

[dependencies]
sp-core = "*"
sp-trie = "*"
trie-db = "*"
sp-crypto-hashing = "*"
parity-scale-codec = "*"
twox-hash = "*"
blake2 = "*"
