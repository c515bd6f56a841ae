[package]
name = "vector_aws_secrets"
version = "0.1.0"
edition = "2021"
publish = false

[dependencies]
async-trait = "*"
aws-config = "*"
aws-sdk-secretsmanager = "*"
aws-sdk-ssm = "*"
clap = { version = "4", features = ["derive"] }
futures = "*"
serde = { version = "1", features = ["derive"] }
serde_json = "1"
tokio = { version = "1", features = ["macros", "rt-multi-thread"] }
