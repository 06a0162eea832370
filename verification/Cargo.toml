[package]
name = "naive_bayes"
version = "0.1.0"
edition = "2021"
publish = false

[dependencies]
bincode = "=1.3.3"
chrono = "=0.4.45"
actix-web = "=4.18.1"
actix-multipart = "=0.8.5"
extractous = "=0.3.0"
log = "=0.4.34"
env_logger = "=0.11.11"
regex = "=1.13.1"
