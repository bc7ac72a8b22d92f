[package]
name = "sha512_circuit"
version = "0.1.0"
edition = "2021"
publish = false

[dependencies]
anyhow = "*"
num = "*"
plonky2 = "*"
plonky2_ecdsa = "*"
plonky2_field = "*"
plonky2_u32 = "*"
sha2 = "*"
