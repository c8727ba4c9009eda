[package]
name = "asset_heatmap"
version = "0.1.0"
edition = "2021"

[dependencies]
anyhow = "1"
crossterm = "*"
ratatui = "*"
tokio = { version = "1", features = ["macros", "rt-multi-thread"] }
yahoo_finance_api = "*"
