[package]
name = "zetta-transport"
version = "0.1.26"
edition = "2021"
publish = false

[dependencies]
bytes = "1"
dashmap = "*"
ed25519-dalek = { version = "2", features = ["rand_core"] }
hmac = "*"
libc = "0.2"
num_cpus = "1"
rand = "0.8"
sha2 = "*"
socket2 = { version = "*", features = ["all"] }
subtle = "2"
tokio = { version = "1", features = ["full"] }
tracing = "0.1"
x25519-dalek = "2"
