[package]
name = "resumai"
version = "0.1.0"
edition = "2021"
publish = false

[dependencies]
anyhow = "1"
aws-config = { version = "=1.13.0", default-features = false, features = ["rt-tokio", "legacy-client"] }
aws-sdk-s3 = { version = "=1.155.0", default-features = false, features = ["rt-tokio"] }
aws-sdk-ssm = { version = "=1.131.0", default-features = false, features = ["rt-tokio"] }
aws_lambda_events = { version = "=1.2.1", default-features = false, features = ["s3"] }
axum = "=0.6.20"
clap = { version = "=4.6.7", default-features = false, features = ["std", "derive", "env", "help", "usage", "error-context"] }
futures = "0.3"
hyper = "=0.14.32"
lambda_runtime = "=0.8.3"
llm-chain = "=0.13.0"
llm-chain-openai = "=0.13.0"
mime = "=0.3.17"
mime-sniffer = "=0.1.3"
pdf-extract = "0.7"
serde = { version = "1", features = ["derive"] }
serde_json = "1"
tokio = { version = "1", features = ["macros", "rt-multi-thread"] }
tower-http = { version = "=0.4.4", features = ["trace"] }
tracing = "0.1"
tracing-subscriber = { version = "=0.3.23", default-features = false, features = ["fmt", "json"] }
uuid = { version = "=1.29.0", features = ["v4"] }
