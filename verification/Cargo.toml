[package]
name = "redis_canal_rs"
version = "0.1.0"
edition = "2021"
publish = false

[dependencies]
lzf = "=1.0.0"
regex = "=1.13.1"
getopts = "=0.2.24"
redis = "=1.7.1"
serde_json = "=1.0.151"
