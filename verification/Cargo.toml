[package]
name = "drink_reminder"
version = "0.1.0"
edition = "2021"
publish = false

[dependencies]
chrono = "=0.4.45"
tokio = { version = "=1.53.2", features = ["rt-multi-thread", "macros", "time", "signal", "sync"] }
sqlx = { version = "=0.9.0", default-features = false, features = ["sqlite", "runtime-tokio"] }
teloxide = { version = "=0.12.2", default-features = false, features = ["rustls", "ctrlc_handler"] }
log = "=0.4.34"
env_logger = "=0.11.11"
serde = { version = "=1.0.229", features = ["derive"] }
dptree = "=0.3.0"
# Not used directly: teloxide-core asks for takecell ^0.1, which would resolve
# to 0.1.2, whose minimum rustc is newer than this toolchain; this pin keeps
# the resolved version buildable.
takecell = "=0.1.1"
