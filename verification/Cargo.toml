[package]
name = "tls_certificate"
version = "0.1.0"
edition = "2021"
publish = false

[dependencies]
heapless = { version = "0.7", default-features = false }
defmt = "0.3"
