[package]
name = "redirect_audit"
version = "0.1.0"
edition = "2021"
publish = false

[dependencies]
futures = "=0.3.34"
reqwest = "=0.11.27"
serde_json = "=1.0.154"
structopt = "=0.3.26"
tabular = "=0.2.0"
tokio = { version = "=1.54.1", features = ["rt-multi-thread"] }
