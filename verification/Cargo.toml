[package]
name = "fuzzamoto"
version = "0.1.0"
edition = "2021"
publish = false

[dependencies]
rand = "*"
base64 = "*"
serde = { version = "*", features = ["derive"] }
serde_json = "*"
clap = { version = "*", features = ["derive"] }
arbitrary = { version = "*", features = ["derive"] }
log = "*"
libafl = { version = "*", default-features = false, features = ["std"] }
libafl_bolts = { version = "*", default-features = false, features = ["std"] }
libafl_nyx = "*"
