[package]
name = "halo2_plonk"
version = "0.1.0"
edition = "2021"
publish = false

[dependencies]
blake2b_simd = "1"
ff = "0.13"
group = "0.13"
hex = "0.4"
pasta_curves = "0.5"
sha2 = "0.10"
