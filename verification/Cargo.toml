[package]
name = "secrets_cache"
version = "0.1.0"
edition = "2021"
publish = false

[dependencies]
aws-sdk-secretsmanager = { version = "*", default-features = false }
aws-smithy-runtime-api = "*"
serde_json = "*"
url = "*"
