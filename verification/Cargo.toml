[package]
name = "probe"
version = "0.1.0"
edition = "2021"
publish = false

[dependencies]
libc = "0.2"
log = "0.4"
rayon = "1"
serde = "1"
serde_json = "1"
syn = { version = "2", features = ["full"] }
thiserror = "1"
