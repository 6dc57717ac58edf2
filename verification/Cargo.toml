[package]
name = "file_storage"
version = "0.1.0"
edition = "2021"
publish = false

[dependencies]
ic-stable-structures = "*"
crc32fast = "*"
candid = "*"
ic-cdk = "*"
ic-cdk-macros = "*"
ciborium = "*"
serde = "*"
