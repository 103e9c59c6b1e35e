[package]
name = "witness_generator"
version = "0.1.0"
edition = "2021"
publish = false

[dependencies]
halo2curves = "=0.10.0"
light-poseidon = "=0.4.1"
ark-bn254 = "=0.5.0"
num-bigint = "=0.4.8"
serde = { version = "=1.0.229", features = ["derive"] }
serde_json = "=1.0.151"
