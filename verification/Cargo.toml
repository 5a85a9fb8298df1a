[package]
name = "sentence_base"
version = "0.1.0"
edition = "2021"
publish = false

[dependencies]
bcrypt = "=0.19.3"
hmac = "=0.12.1"
jwt = "=0.16.0"
serde_json = "=1.0.151"
sha2 = "=0.10.9"
