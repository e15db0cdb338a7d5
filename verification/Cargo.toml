[package]
name = "spatiand"
version = "0.1.0"
edition = "2021"
publish = false

[dependencies]
glam = "=0.34.2"
libc = "=0.2.191"
log = "=0.4.35"
quinn = "=0.11.12"
serde = { version = "=1.0.229", features = ["derive"] }
tokio = { version = "=1.54.1", features = ["macros", "net", "rt", "sync", "time"] }
toml = "=1.1.8"
