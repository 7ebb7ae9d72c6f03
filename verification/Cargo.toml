[package]
name = "rust_remover"
version = "0.1.0"
edition = "2021"
publish = false

[dependencies]
form_urlencoded = "=1.2.2"
url = "=2.5.8"
rust-crypto = "=0.2.36"
rand = "=0.4.6"
rayon = "=1.12.0"
chrono = "=0.4.45"
serde = { version = "=1.0.229", features = ["derive"] }
serde_json = "=1.0.154"
log = "=0.4.35"
log4rs = "=1.4.0"
typemap = "=0.3.3"
time = "0.1"
reqwest = { version = "0.12", features = ["blocking"] }
