[package]
name = "utilization_profile"
version = "0.1.0"
edition = "2021"
publish = false

[dependencies]
fxprof-processed-profile = "*"
rustc-hash = "*"
smallvec = "*"
csv = "*"
serde = { version = "*", features = ["derive"] }
serde_derive = "*"
serde_json = "*"
