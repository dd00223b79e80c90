[package]
name = "parquet_php"
version = "0.1.0"
edition = "2021"
publish = false

[dependencies]
chrono = { version = "=0.4.45", default-features = false, features = ["std"] }
uuid = "=1.29.0"
arrow = { version = "=60.1.0", default-features = false }
parquet = { version = "=60.1.0", default-features = false, features = ["arrow", "snap", "brotli", "flate2", "flate2-rust_backend", "lz4", "zstd"] }
bytes = "=1.12.1"
ext-php-rs = "=0.16.4"
