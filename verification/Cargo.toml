[package]
name = "queue_processor"
version = "0.1.0"
edition = "2021"
publish = false

[dependencies]
svix-ksuid = "=0.10.0"
geo = "=0.33.1"
petgraph = "=0.8.3"
aws-config = "=1.13.0"
aws-sdk-dynamodb = "=1.134.0"
aws-sdk-cloudwatch = "=1.138.0"
aws_lambda_events = { version = "=1.2.1", default-features = false, features = ["dynamodb"] }
lambda_runtime = "=1.5.0"
tokio = { version = "=1.54.1", features = ["macros", "rt-multi-thread"] }
futures = "=0.3.34"
serde = { version = "=1.0.229", features = ["derive"] }
serde_dynamo = { version = "=4.3.0", features = ["aws-sdk-dynamodb+1"] }
tracing = "=0.1.44"
tracing-subscriber = "=0.3.23"
