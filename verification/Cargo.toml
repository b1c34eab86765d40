[package]
name = "sql_to_mir"
version = "0.1.0"
edition = "2021"
publish = false

[dependencies]
nom-sql = "*"
slog = "2"
