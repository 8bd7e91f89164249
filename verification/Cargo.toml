[package]
name = "s3_grabber"
version = "0.1.0"
edition = "2021"
publish = false

[dependencies]
aws-config = "1"
aws-sdk-s3 = "1"
aws-types = "1"
crossterm = "0.28"
ratatui = "0.29"
tokio = { version = "1", features = ["rt"] }
