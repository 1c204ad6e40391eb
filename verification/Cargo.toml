[package]
name = "antworker"
version = "0.1.0"
edition = "2021"
publish = false

[dependencies]
chrono = "*"
quoted_printable = "*"
mailparse = "*"
imap = "*"
native-tls = "*"
lettre = "*"
indicatif = "*"
clap = { version = "*", features = ["derive"] }
dotenv = "*"
