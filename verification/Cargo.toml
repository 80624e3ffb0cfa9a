[package]
name = "mterm"
version = "0.1.0"
edition = "2021"
publish = false

[dependencies]
vte = "=0.15.0"
sha2 = "=0.10.9"
ed25519-dalek = "=2.2.0"
serde = { version = "=1.0.229", features = ["derive"] }
serde_json = "=1.0.154"
once_cell = "=1.21.4"
libc = "=0.2.191"
crossterm = "=0.29.0"
flate2 = "=1.1.10"
tar = "=0.4.46"
ureq = "=3.5.1"
jni = "0.21"
