[package]
name = "songmatch"
version = "0.1.0"
edition = "2021"
publish = false

[dependencies]
clap = { version = "=4.6.7", features = ["derive"] }
futures = "=0.3.34"
num-complex = "=0.4.6"
num-traits = "=0.2.19"
pgvector = { version = "=0.4.2", features = ["sqlx"] }
rubato = "=0.14.1"
rustfft = "=6.4.1"
serde = { version = "=1.0.229", features = ["derive"] }
serde_json = "=1.0.154"
sqlx = { version = "=0.9.0", default-features = false, features = ["postgres", "runtime-tokio", "time"] }
symphonia = "=0.5.5"
time = { version = "=0.3.55", features = ["macros", "parsing", "serde"] }
tokio = { version = "=1.54.1", features = ["full"] }
tracing = "=0.1.44"
tracing-subscriber = { version = "=0.3.23", features = ["env-filter"] }
