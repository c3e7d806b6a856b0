[package]
name = "mail_export"
version = "0.1.0"
edition = "2021"
publish = false

[dependencies]
clap = "2"
env_logger = "0.10"
imap = { version = "2", default-features = false }
log = "0.4"
openssl = "0.10"
quick-error = "1"
