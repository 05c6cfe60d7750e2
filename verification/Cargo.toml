[package]
name = "jaque_relay"
version = "0.1.0"
edition = "2021"
publish = false

[dependencies]
anyhow = "*"
axum = "*"
futures-util = "=0.3.34"
nostro2 = "=0.1.35"
openssl = "=0.10.81"
# Not used directly: teloxide's tree otherwise resolves takecell 0.1.2, whose
# required rustc is newer than the toolchain this crate builds with.
takecell = "=0.1.1"
serde = { version = "*", features = ["derive"] }
serde_json = "*"
teloxide = "*"
tokio = { version = "*", features = ["macros", "rt-multi-thread", "net"] }
tower-http = { version = "*", features = ["fs"] }
tracing = "*"
tracing-subscriber = { version = "*", features = ["env-filter"] }
