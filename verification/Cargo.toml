[package]
name = "twitter2telegram"
version = "0.1.0"
edition = "2021"
publish = false

[dependencies]
anyhow = "=1.0.104"
chrono = "=0.4.45"
diesel = { version = "=1.4.8", features = ["sqlite", "r2d2", "chrono"] }
diesel_migrations = "=1.4.0"
dotenv = "=0.15.0"
dptree = "=0.2.1"
egg-mode = { version = "=0.16.1", default-features = false, features = ["rustls"] }
futures = "=0.3.34"
log = "=0.4.34"
md5 = "=0.7.0"
pretty_env_logger = "=0.4.0"
r-cache = "=0.5.0"
serde_json = "=1.0.154"
# Used by teloxide only; held at 0.1.1 because 0.1.2 asks for a newer compiler.
takecell = "=0.1.1"
teloxide = { version = "=0.9.2", default-features = false, features = ["macros", "rustls", "auto-send", "ctrlc_handler"] }
tokio = { version = "=1.54.1", features = ["full"] }
url = "=2.5.8"
