[package]
name = "crosslink"
version = "0.1.0"
edition = "2021"
publish = false

[dependencies]
bip39 = "=2.2.2"
blake3 = "=1.8.7"
byteorder = "=1.5.0"
ed25519-zebra = "=4.2.0"
hex = "=0.4.3"
incrementalmerkletree = "=0.9.0"
orchard = "=0.16.0"
rand = "=0.8.8"
ripemd = "=0.2.0"
sha2 = "=0.11.1"
shardtree = "=0.8.0"
tokio = { version = "=1.54.1", features = ["rt", "time", "sync"] }
zcash_client_backend = { version = "=0.25.0", default-features = false, features = ["orchard", "transparent-inputs", "unstable-serialization"] }
zcash_keys = { version = "=0.17.0", features = ["orchard", "transparent-inputs"] }
zcash_note_encryption = "=0.5.1"
zcash_primitives = "=0.31.0"
zcash_protocol = "=0.11.0"
zcash_transparent = { version = "=0.11.0", features = ["transparent-inputs"] }
zip32 = "=0.3.0"

[dev-dependencies]
rand_core = "=0.10.1"
