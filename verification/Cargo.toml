[package]
name = "rosey"
version = "0.1.0"
edition = "2021"
publish = false

[dependencies]
serde = { version = "=1.0.229", features = ["derive"] }
serde_json = "=1.0.151"
sha2 = "=0.11.0"
base64 = "=0.23.1"
charabia = { version = "=0.10.0", default-features = false }
kuchiki = "=0.8.1"
