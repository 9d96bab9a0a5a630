[package]
name = "pydantic_sifr_core"
version = "0.1.0"
edition = "2021"
publish = false

[dependencies]
base64 = "0.22.1"
bigdecimal = "0.4.11"
hex = "0.4.3"
jiter = "=0.16.0"
num-bigint = "0.4.6"
num-complex = "0.4.6"
num-rational = "0.4.2"
num-traits = "0.2.19"
regex = "1.12.4"
serde = { version = "1", features = ["derive"] }
serde_json = "1"
sha2 = "0.10.9"
speedate = "0.17.0"
url = "2"
uuid = "1"
