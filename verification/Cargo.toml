[package]
name = "coletor_imagem_radar"
version = "0.3.0"
edition = "2021"
publish = false

[dependencies]
anyhow = "1"
axum = "0.8"
bytes = "1"
clap = { version = "4", features = ["derive"] }
futures = "0.3"
http = "1"
netcdf = "*"
object_store = { version = "*", features = ["aws"] }
prost = "0.14"
prost-types = "0.14"
redb = "*"
sea-orm = { version = "*", default-features = false, features = ["macros", "runtime-tokio-rustls", "sqlx-postgres", "with-time"] }
serde = { version = "1", features = ["derive"] }
time = "0.3"
tokio = { version = "1", features = ["rt-multi-thread", "macros", "fs", "io-util", "process", "time", "net"] }
toml = "*"
tonic = "0.14"
tonic-prost = "0.14"
tracing = "0.1"
tracing-subscriber = { version = "0.3", features = ["env-filter", "json"] }
