[package]
name = "secure_types"
version = "0.1.0"
edition = "2021"
publish = false

[dependencies]
zeroize = "=1.9.1"
memsec = { version = "=0.7.0", features = ["alloc_ext"] }
libc = "=0.2.190"
serde = { version = "=1.0.229", features = ["derive"] }
thiserror = "=2.0.21"

[dev-dependencies]
serde_json = "=1.0.151"
