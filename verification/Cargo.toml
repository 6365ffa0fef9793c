[package]
name = "span_relay"
version = "0.1.0"
edition = "2021"
publish = false

[dependencies]
actix-web = "=4.15.0"
futures = "=0.3.34"
rusoto_core = "=0.48.0"
rusoto_kinesis = "=0.48.0"
serde_json = "=1.0.151"
zipkin-types = { version = "=1.1.0", features = ["serde"] }
