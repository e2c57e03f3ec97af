[package]
name = "taiga"
version = "0.1.0"
edition = "2021"
publish = false

[dependencies]
ff = "*"
group = "*"
halo2_gadgets = "*"
halo2_proofs = "*"
pasta_curves = "*"
rand = "*"
