[package]
name = "naseej_gateway"
version = "0.1.0"
edition = "2021"
publish = false

[dependencies]
regex = "=1.13.1"
rhai = "=1.26.1"
jsonwebtoken = { version = "=11.1.0", features = ["rust_crypto"] }
sha2 = "=0.11.0"
hex = "=0.4.3"
rand = "=0.10.3"
uuid = { version = "=1.27.0", features = ["v4"] }
chrono = "=0.4.45"
bcrypt = "=0.19.3"
subtle = "=2.6.1"
serde = { version = "=1.0.229", features = ["derive"] }
serde_json = "=1.0.151"
tokio = { version = "=1.53.2", features = ["full"] }
hyper = { version = "=1.12.0", features = ["full"] }
hyper-util = { version = "=0.1.21", features = ["full"] }
http-body-util = "=0.1.5"
bytes = "=1.12.1"
arc-swap = "=1.9.2"
rumqttc = { version = "=0.25.1", default-features = false }
prost = "=0.14.4"
prost-types = "=0.14.4"
