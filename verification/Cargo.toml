[package]
name = "naive_sql"
version = "0.1.0"
edition = "2021"
publish = false

[dependencies]
sqlparser = "*"
msql-srv = "*"
tokio = { version = "1", features = ["rt-multi-thread"] }
serde = { version = "1", features = ["derive"] }
toml = "*"
clap = { version = "*", features = ["derive"] }
thiserror = "*"
tikv-client = "*"
