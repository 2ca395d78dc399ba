[package]
name = "schedule"
version = "0.1.0"
edition = "2021"
publish = false

[dependencies]
ab_glyph = { version = "0.2", default-features = false, features = ["std"] }
anyhow = "1"
axum = { version = "0.8", default-features = false, features = ["http1", "tokio"] }
calamine = "=0.36.1"
chrono = { version = "=0.4.45", default-features = false, features = ["std", "clock", "serde"] }
chrono-tz = { version = "=0.10.4", default-features = false, features = ["std"] }
clap = { version = "4", default-features = false, features = ["derive", "std", "help", "usage", "error-context"] }
dotenvy = "0.15"
dptree = "0.5"
hex = "=0.4.3"
image = { version = "0.25", default-features = false, features = ["jpeg"] }
imageproc = { version = "0.25", default-features = false }
object_store = { version = "0.12", default-features = false, features = ["aws"] }
redis = { version = "0.32", default-features = false, features = ["script", "tokio-comp", "connection-manager"] }
serde = { version = "1", features = ["derive"] }
serde_json = "1"
sha2 = "=0.10.9"
sqlx = { version = "0.8", default-features = false, features = ["postgres", "runtime-tokio", "chrono", "uuid", "json", "derive", "migrate"] }
subtle = "=2.6.1"
# A dependency of teloxide, held at its last version that builds with the compiler in use.
takecell = "=0.1.1"
teloxide = { version = "0.17", default-features = false, features = ["rustls", "ctrlc_handler"] }
thiserror = "2"
tokio = { version = "=1.54.1", features = ["macros", "rt-multi-thread", "fs", "io-util", "time", "net"] }
tracing = "0.1"
tracing-subscriber = { version = "0.3", default-features = false, features = ["env-filter", "fmt"] }
uuid = { version = "=1.29.0", features = ["v4", "serde"] }
