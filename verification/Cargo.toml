[package]
name = "social_media_backend"
version = "0.1.0"
edition = "2021"
publish = false

[dependencies]
aws-config = "=1.12.0"
aws-sdk-dynamodb = "=1.131.0"
aws-sdk-s3 = "=1.152.0"
# Held back for aws-config, which does not compile against aws-types 1.7.
aws-types = "=1.6.0"
lambda_http = "=1.3.2"
openssl = "=0.10.81"
reqwest = "=0.13.5"
serde = { version = "=1.0.229", features = ["derive"] }
serde_json = "=1.0.154"
tokio = { version = "=1.54.1", features = ["macros"] }
uuid = { version = "=1.29.0", features = ["v4"] }
