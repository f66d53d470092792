[package]
name = "csv_to_parquet"
version = "0.1.0"
edition = "2021"
publish = false

[dependencies]
anyhow = "*"
clap = "*"
indicatif = "*"
num_cpus = "*"
polars = { version = "*", default-features = false, features = ["parquet"] }
rayon = "*"

[dev-dependencies]
chrono = "*"
