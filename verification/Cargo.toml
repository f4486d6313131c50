[package]
name = "http_server"
version = "0.1.0"
edition = "2021"
publish = false

[dependencies]
percent-encoding = "=2.3.2"
v_htmlescape = "=0.15.8"
actix-web = { version = "=4.18.1", default-features = false, features = ["macros"] }
actix-files = "=0.6.10"
futures = "=0.3.34"
bytes = "=1.12.1"
tar = "=0.4.46"
clap = { version = "=4.6.7", features = ["cargo"] }
env_logger = "=0.11.11"
log = "=0.4.35"
