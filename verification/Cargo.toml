[package]
name = "policy_controller"
version = "0.1.0"
edition = "2021"
publish = false

[dependencies]
actix-cors = "0.7"
actix-files = "0.6"
actix-web = "4"
actix-ws = "0.3"
anyhow = "1"
argon2 = { version = "0.5", features = ["std"] }
async-graphql = { version = "7", default-features = false }
async-trait = "0.1"
base64 = "0.22"
chrono = "0.4"
futures-util = "0.3"
hex = "0.4"
log = "0.4"
p256 = "0.13"
rand = "0.8"
rcgen = { version = "0.13", features = ["x509-parser"] }
rustls = { version = "0.23", default-features = false, features = ["ring", "std", "tls12", "logging"] }
rustls-pemfile = "2"
serde = { version = "1", features = ["derive"] }
serde_json = "1"
sha2 = "0.10"
sqlx = { version = "0.8", default-features = false, features = ["runtime-tokio", "sqlite", "migrate", "macros"] }
subtle = "2"
thiserror = "1"
time = "0.3"
tokio = { version = "1", features = ["sync", "rt-multi-thread", "time", "macros"] }
tokio-stream = "0.1"
tonic = { version = "0.12", default-features = false, features = ["transport", "tls"] }
uuid = { version = "1", features = ["v4"] }
x509-parser = "0.16"
