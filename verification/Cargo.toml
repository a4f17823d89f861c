[package]
name = "poker_rooms"
version = "0.1.0"
edition = "2021"
publish = false

[dependencies]
uuid = { version = "*", features = ["v4"] }
serde = { version = "*", features = ["derive"] }
serde_json = "*"
serde_dynamo = { version = "*", features = ["aws-sdk-dynamodb+1"] }
aws-config = "*"
aws-sdk-dynamodb = "*"
lambda_http = "*"
tokio = { version = "*", features = ["macros", "rt-multi-thread"] }
