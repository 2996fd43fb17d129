[package]
name = "quasar"
version = "0.1.0"
edition = "2021"
publish = false

[dependencies]
blake2 = "0.10"
ff = "0.13"
halo2curves = "*"
rand_chacha = "0.3"
rayon = "1"
serde = { version = "1", features = ["derive"] }
