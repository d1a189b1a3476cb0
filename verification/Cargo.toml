[package]
name = "real_estate_allocation"
version = "0.1.0"
edition = "2021"
publish = false

[dependencies]
serde = { version = "=1.0.229", features = ["derive"] }
serde_json = "=1.0.154"
sha2 = "=0.10.9"
uuid = { version = "=1.29.0", features = ["v4"] }
jiff = "=0.2.39"
tar = "=0.4.46"
flate2 = "=1.1.10"
ev_lib = { version = "=0.28.2", default-features = false, features = ["i18n"] }
v_utils = { version = "=2.22.0", default-features = false, features = ["distributions"] }
clap = { version = "4", features = ["derive"] }
