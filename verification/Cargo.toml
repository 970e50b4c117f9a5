[package]
name = "duckwatch"
version = "0.1.0"
edition = "2021"
publish = false

[dependencies]
blake2s_simd = "=1.0.5"
chacha20poly1305 = "=0.10.1"
x25519-dalek = { version = "=2.0.1", features = ["static_secrets"] }
foldhash = "=0.2.0"
tai64 = "=4.1.0"
barely-fuzzy = { version = "=0.1.0", features = ["alloc"] }
embedded-hal = "=1.0.0"
rand_core = "=0.6.4"
rand_chacha = "=0.3.1"
hashbrown = "=0.17.1"
minipng = "*"
embedded-graphics-core = "*"
