[package]
name = "quote_ingest"
version = "0.1.0"
edition = "2021"
publish = false

[dependencies]
argparse = "=0.2.2"
redis = "=0.25.5"
redis_ts = "=0.5.4"
tokio-test = "=0.4.6"
yahoo_finance_api = "=1.6.1"
