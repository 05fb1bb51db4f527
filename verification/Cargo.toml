[package]
name = "moete"
version = "0.1.0"
edition = "2021"
publish = false

[dependencies]
regex = "=1.13.1"
rand = "=0.9.5"
marukov = "=0.0.2"
unidecode = "=0.3.0"
chrono = "=0.4.45"
human_format = "=1.2.1"
serde = { version = "=1.0.229", features = ["derive"] }
serde_json = "=1.0.154"
dotenv = "=0.15.0"
sys-info = "=0.9.1"
