[package]
name = "mvt_tiles"
version = "0.1.0"
edition = "2021"
publish = false

[dependencies]
bytes = "*"
clap = "*"
dotenvy = "*"
polars = { version = "*", default-features = false, features = ["lazy", "parquet"] }
salvo = { version = "*", default-features = false, features = ["server", "http1"] }
serde = { version = "*", features = ["derive"] }
serde_json = "*"
tokio = { version = "*", features = ["rt-multi-thread", "macros", "sync"] }
