[package]
name = "avss_bench"
version = "0.1.0"
edition = "2021"
publish = false

[dependencies]
ark-bls12-381 = "0.4"
ark-ec = "0.4"
ark-ff = "0.4"
ark-poly = "0.4"
ark-poly-commit = "0.4"
ark-serialize = "0.4"
ark-std = "0.4"
rand = "*"
rcgen = "*"
ring = "*"
serde_json = "*"
tokio = { version = "*", features = ["full"] }
