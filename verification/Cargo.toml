[package]
name = "hurlin"
version = "0.1.0"
edition = "2021"
publish = false

[dependencies]
axum = { version = "0.7", features = ["macros"] }
camino = "1"
cap-std = { version = "3", features = ["fs_utf8"] }
clap = { version = "4", features = ["derive"] }
gethostname = "0.5"
hex = "0.4"
lasso = { version = "0.7", features = ["multi-threaded"] }
rand = "0.8"
serde = { version = "1", features = ["derive"] }
serde_derive = "1"
serde_json = "1"
tokio = { version = "1", features = ["full"] }
tower-http = { version = "0.6", features = ["trace"] }
tracing = "0.1"
tracing-subscriber = "0.3"
typed-json = "0.1"
